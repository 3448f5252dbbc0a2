//! Facade: high-level queries and helpers over the editor state, so that
//! callers need not reach into its parts.
use crate::buffer::{self, line_at};
use crate::cursor::{self, bounded, Cursor};
use crate::editor_state::{self, resolve_in, EditorState};
use crate::key_event::KeyEvent;
use crate::viewport::{self, adjusted, can_adjust, Viewport};
use vstd::prelude::*;

verus! {

/// Returns the full text of the editor's buffer.
pub fn buffer_content(state: &EditorState) -> (s: String)
    ensures
        s@ == state.buffer@,
{
    buffer::content(&state.buffer)
}

/// Returns the number of lines of the editor's buffer.
pub fn buffer_line_count(state: &EditorState) -> (n: usize)
    ensures
        n == crate::lines::line_count(state.buffer@),
{
    buffer::line_count(&state.buffer)
}

/// Returns line `index` (with its line break), or `None` when out of bounds.
pub fn buffer_get_line(state: &EditorState, index: usize) -> (r: Option<String>)
    ensures
        match line_at(&state.buffer, index as int) {
            Some(t) => r matches Some(s) && s@ == t,
            None => r is None,
        },
{
    buffer::get_line(&state.buffer, index)
}

/// Returns the cursor position as (line, column).
pub fn cursor_position(state: &EditorState) -> (r: (usize, usize))
    ensures
        r == (state.cursor.line, state.cursor.column),
{
    (state.cursor.line, state.cursor.column)
}

/// Creates a cursor at the given line and column.
pub fn cursor_new(line: usize, column: usize) -> (c: Cursor)
    ensures
        c == (Cursor { line, column }),
{
    cursor::new(line, column)
}

/// Returns the cursor clamped into the editor's buffer.
pub fn cursor_ensure_within_bounds(cur: Cursor, state: &EditorState) -> (c: Cursor)
    ensures
        c == bounded(&state.buffer, cur),
{
    cursor::ensure_within_bounds(cur, &state.buffer)
}

/// Returns the viewport adjusted so that the cursor is visible.
pub fn viewport_adjust(state: &EditorState) -> (v: Viewport)
    requires
        can_adjust(state.viewport, state.cursor),
    ensures
        v == adjusted(state.viewport, state.cursor),
{
    viewport::adjust(state.viewport, &state.cursor)
}

/// Resolves a key event to a command name in the active keymaps.
pub fn resolve_key(state: &EditorState, key: KeyEvent) -> (r: Option<String>)
    ensures
        match resolve_in(crate::text::seq_views(state.active_keymaps@), state.keymaps@, key) {
            Some(c) => r matches Some(x) && x@ == c,
            None => r is None,
        },
{
    editor_state::resolve_key(state, key)
}

} // verus!
