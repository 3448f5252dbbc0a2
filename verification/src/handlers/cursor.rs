//! Cursor movement commands: each moves the cursor, then scrolls the viewport
//! so that the cursor stays visible.
use crate::buffer;
use crate::cursor::{
    self, down_target, first_non_blank_from, last_column, last_line_index, left_target, line_length, raw_line,
    right_target, up_target, word_backward_target, word_end_target, word_forward_target, Cursor,
};
use crate::editor_state::{moved_to, EditorState};
use crate::error::AlfredError;
use crate::viewport::{self, adjusted, can_adjust, Viewport};
use vstd::prelude::*;

verus! {

/// Moves the cursor up one line.
pub fn cursor_up(s: &mut EditorState) -> (r: Result<(), AlfredError>)
    requires
        can_adjust(old(s).viewport, up_target(&old(s).buffer, old(s).cursor)),
    ensures
        r is Ok,
        *final(s) == moved_to(*old(s), up_target(&old(s).buffer, old(s).cursor)),
{
    s.cursor = cursor::move_up(s.cursor, &s.buffer);
    s.viewport = viewport::adjust(s.viewport, &s.cursor);
    Ok(())
}

/// Moves the cursor down one line.
pub fn cursor_down(s: &mut EditorState) -> (r: Result<(), AlfredError>)
    requires
        can_adjust(old(s).viewport, down_target(&old(s).buffer, old(s).cursor)),
    ensures
        r is Ok,
        *final(s) == moved_to(*old(s), down_target(&old(s).buffer, old(s).cursor)),
{
    s.cursor = cursor::move_down(s.cursor, &s.buffer);
    s.viewport = viewport::adjust(s.viewport, &s.cursor);
    Ok(())
}

/// Moves the cursor left one column (wrapping to the previous line).
pub fn cursor_left(s: &mut EditorState) -> (r: Result<(), AlfredError>)
    requires
        can_adjust(old(s).viewport, left_target(&old(s).buffer, old(s).cursor)),
    ensures
        r is Ok,
        *final(s) == moved_to(*old(s), left_target(&old(s).buffer, old(s).cursor)),
{
    s.cursor = cursor::move_left(s.cursor, &s.buffer);
    s.viewport = viewport::adjust(s.viewport, &s.cursor);
    Ok(())
}

/// Moves the cursor right one column (wrapping to the next line).
pub fn cursor_right(s: &mut EditorState) -> (r: Result<(), AlfredError>)
    requires
        can_adjust(old(s).viewport, right_target(&old(s).buffer, old(s).cursor)),
    ensures
        r is Ok,
        *final(s) == moved_to(*old(s), right_target(&old(s).buffer, old(s).cursor)),
{
    s.cursor = cursor::move_right(s.cursor, &s.buffer);
    s.viewport = viewport::adjust(s.viewport, &s.cursor);
    Ok(())
}

/// Moves the cursor to column 0.
pub fn cursor_line_start(s: &mut EditorState) -> (r: Result<(), AlfredError>)
    requires
        can_adjust(old(s).viewport, Cursor { line: old(s).cursor.line, column: 0 }),
    ensures
        r is Ok,
        *final(s) == moved_to(*old(s), Cursor { line: old(s).cursor.line, column: 0 }),
{
    s.cursor = cursor::move_to_line_start(s.cursor, &s.buffer);
    s.viewport = viewport::adjust(s.viewport, &s.cursor);
    Ok(())
}

/// Moves the cursor onto the last char of its line.
pub fn cursor_line_end(s: &mut EditorState) -> (r: Result<(), AlfredError>)
    requires
        can_adjust(
            old(s).viewport,
            Cursor { line: old(s).cursor.line, column: last_column(&old(s).buffer, old(s).cursor.line as int) as usize },
        ),
    ensures
        r is Ok,
        *final(s) == moved_to(
            *old(s),
            Cursor { line: old(s).cursor.line, column: last_column(&old(s).buffer, old(s).cursor.line as int) as usize },
        ),
{
    s.cursor = cursor::move_to_line_end(s.cursor, &s.buffer);
    s.viewport = viewport::adjust(s.viewport, &s.cursor);
    Ok(())
}

/// Where `^` goes: the first non-blank char of the line, else column 0.
pub open spec fn first_non_blank_target(b: &buffer::Buffer, c: Cursor) -> Cursor {
    Cursor {
        line: c.line,
        column: match first_non_blank_from(raw_line(b, c.line as int), 0) {
            Some(p) => p as usize,
            None => 0,
        },
    }
}

/// Moves the cursor to the first non-blank char of its line.
pub fn cursor_first_non_blank(s: &mut EditorState) -> (r: Result<(), AlfredError>)
    requires
        can_adjust(old(s).viewport, first_non_blank_target(&old(s).buffer, old(s).cursor)),
    ensures
        r is Ok,
        *final(s) == moved_to(*old(s), first_non_blank_target(&old(s).buffer, old(s).cursor)),
{
    s.cursor = cursor::move_to_first_non_blank(s.cursor, &s.buffer);
    s.viewport = viewport::adjust(s.viewport, &s.cursor);
    Ok(())
}

/// Moves the cursor to the start of the document.
pub fn cursor_document_start(s: &mut EditorState) -> (r: Result<(), AlfredError>)
    requires
        can_adjust(old(s).viewport, Cursor { line: 0, column: 0 }),
    ensures
        r is Ok,
        *final(s) == moved_to(*old(s), Cursor { line: 0, column: 0 }),
{
    s.cursor = cursor::move_to_document_start(s.cursor, &s.buffer);
    s.viewport = viewport::adjust(s.viewport, &s.cursor);
    Ok(())
}

/// Moves the cursor to column 0 of the last line.
pub fn cursor_document_end(s: &mut EditorState) -> (r: Result<(), AlfredError>)
    requires
        can_adjust(old(s).viewport, Cursor { line: last_line_index(&old(s).buffer) as usize, column: 0 }),
    ensures
        r is Ok,
        *final(s) == moved_to(*old(s), Cursor { line: last_line_index(&old(s).buffer) as usize, column: 0 }),
{
    s.cursor = cursor::move_to_document_end(s.cursor, &s.buffer);
    s.viewport = viewport::adjust(s.viewport, &s.cursor);
    Ok(())
}

/// Moves the cursor to the start of the next word.
pub fn cursor_word_forward(s: &mut EditorState) -> (r: Result<(), AlfredError>)
    requires
        old(s).cursor.line < usize::MAX,
        can_adjust(old(s).viewport, word_forward_target(&old(s).buffer, old(s).cursor)),
    ensures
        r is Ok,
        *final(s) == moved_to(*old(s), word_forward_target(&old(s).buffer, old(s).cursor)),
{
    s.cursor = cursor::move_word_forward(s.cursor, &s.buffer);
    s.viewport = viewport::adjust(s.viewport, &s.cursor);
    Ok(())
}

/// Moves the cursor to the start of the previous word.
pub fn cursor_word_backward(s: &mut EditorState) -> (r: Result<(), AlfredError>)
    requires
        old(s).cursor.column <= 1 || old(s).cursor.column <= cursor::content(
            &old(s).buffer,
            old(s).cursor.line as int,
        ).len(),
        can_adjust(old(s).viewport, word_backward_target(&old(s).buffer, old(s).cursor)),
    ensures
        r is Ok,
        *final(s) == moved_to(*old(s), word_backward_target(&old(s).buffer, old(s).cursor)),
{
    s.cursor = cursor::move_word_backward(s.cursor, &s.buffer);
    s.viewport = viewport::adjust(s.viewport, &s.cursor);
    Ok(())
}

/// Moves the cursor to the end of the current or next word.
pub fn cursor_word_end(s: &mut EditorState) -> (r: Result<(), AlfredError>)
    requires
        old(s).cursor.line < usize::MAX,
        can_adjust(old(s).viewport, word_end_target(&old(s).buffer, old(s).cursor)),
    ensures
        r is Ok,
        *final(s) == moved_to(*old(s), word_end_target(&old(s).buffer, old(s).cursor)),
{
    s.cursor = cursor::move_word_end(s.cursor, &s.buffer);
    s.viewport = viewport::adjust(s.viewport, &s.cursor);
    Ok(())
}

/// Moves the cursor to column 0 of the top line of the screen.
pub fn cursor_screen_top(s: &mut EditorState) -> (r: Result<(), AlfredError>)
    ensures
        r is Ok,
        *final(s) == (EditorState { cursor: Cursor { line: old(s).viewport.top_line, column: 0 }, ..*old(s) }),
{
    s.cursor = cursor::new(s.viewport.top_line, 0);
    Ok(())
}

/// The smaller of two integers.
pub open spec fn min(a: int, b: int) -> int {
    if a < b {
        a
    } else {
        b
    }
}

/// Moves the cursor to column 0 of the middle line of the screen (or of the
/// last line of the buffer, when that comes first).
pub fn cursor_screen_middle(s: &mut EditorState) -> (r: Result<(), AlfredError>)
    requires
        old(s).viewport.top_line + old(s).viewport.height / 2 <= usize::MAX,
    ensures
        r is Ok,
        *final(s) == (EditorState {
            cursor: Cursor {
                line: min(old(s).viewport.top_line + old(s).viewport.height / 2, last_line_index(&old(s).buffer))
                    as usize,
                column: 0,
            },
            ..*old(s)
        }),
{
    proof {
        crate::lines::lemma_line_count_positive(s.buffer@);
    }
    let middle_line = s.viewport.top_line + (s.viewport.height as usize) / 2;
    let last_line = buffer::line_count(&s.buffer) - 1;
    s.cursor = cursor::new(
        if middle_line < last_line {
            middle_line
        } else {
            last_line
        },
        0,
    );
    Ok(())
}

/// Moves the cursor to column 0 of the bottom line of the screen (or of the
/// last line of the buffer, when that comes first).
pub fn cursor_screen_bottom(s: &mut EditorState) -> (r: Result<(), AlfredError>)
    requires
        old(s).viewport.top_line + old(s).viewport.height <= usize::MAX,
        old(s).viewport.top_line + old(s).viewport.height >= 1,
    ensures
        r is Ok,
        *final(s) == (EditorState {
            cursor: Cursor {
                line: min(old(s).viewport.top_line + old(s).viewport.height - 1, last_line_index(&old(s).buffer))
                    as usize,
                column: 0,
            },
            ..*old(s)
        }),
{
    proof {
        crate::lines::lemma_line_count_positive(s.buffer@);
    }
    let screen_bottom = s.viewport.top_line + s.viewport.height as usize - 1;
    let last_line = buffer::line_count(&s.buffer) - 1;
    s.cursor = cursor::new(
        if screen_bottom < last_line {
            screen_bottom
        } else {
            last_line
        },
        0,
    );
    Ok(())
}

/// The cursor and top line after scrolling half a page down: both move down
/// by half the height, each stopping at the last line.
pub open spec fn half_page_down(s: EditorState) -> (Cursor, Viewport) {
    let half = s.viewport.height / 2;
    let last = last_line_index(&s.buffer);
    (
        Cursor { line: min(s.cursor.line + half, last) as usize, column: 0 },
        Viewport { top_line: min(s.viewport.top_line + half, last) as usize, ..s.viewport },
    )
}

/// Scrolls half a page down: the cursor (to column 0) and the top line move
/// down by half the height, then the viewport keeps the cursor visible.
pub fn scroll_half_page_down(s: &mut EditorState) -> (r: Result<(), AlfredError>)
    requires
        old(s).cursor.line + old(s).viewport.height / 2 <= usize::MAX,
        old(s).viewport.top_line + old(s).viewport.height / 2 <= usize::MAX,
        can_adjust(half_page_down(*old(s)).1, half_page_down(*old(s)).0),
    ensures
        r is Ok,
        *final(s) == (EditorState {
            cursor: half_page_down(*old(s)).0,
            viewport: adjusted(half_page_down(*old(s)).1, half_page_down(*old(s)).0),
            ..*old(s)
        }),
{
    proof {
        crate::lines::lemma_line_count_positive(s.buffer@);
    }
    let half_page = (s.viewport.height as usize) / 2;
    let last_line = buffer::line_count(&s.buffer) - 1;
    let a = s.cursor.line + half_page;
    let new_cursor_line = if a < last_line {
        a
    } else {
        last_line
    };
    let b = s.viewport.top_line + half_page;
    let new_top_line = if b < last_line {
        b
    } else {
        last_line
    };
    s.cursor = cursor::new(new_cursor_line, 0);
    s.viewport = Viewport { top_line: new_top_line, ..s.viewport };
    s.viewport = viewport::adjust(s.viewport, &s.cursor);
    Ok(())
}

/// The cursor and top line after scrolling half a page up: both move up by
/// half the height, each stopping at line 0.
pub open spec fn half_page_up(s: EditorState) -> (Cursor, Viewport) {
    let half = s.viewport.height / 2;
    (
        Cursor { line: (if s.cursor.line > half { s.cursor.line - half } else { 0 }) as usize, column: 0 },
        Viewport {
            top_line: (if s.viewport.top_line > half { s.viewport.top_line - half } else { 0 }) as usize,
            ..s.viewport
        },
    )
}

/// Scrolls half a page up: the cursor (to column 0) and the top line move up
/// by half the height, then the viewport keeps the cursor visible.
pub fn scroll_half_page_up(s: &mut EditorState) -> (r: Result<(), AlfredError>)
    requires
        can_adjust(half_page_up(*old(s)).1, half_page_up(*old(s)).0),
    ensures
        r is Ok,
        *final(s) == (EditorState {
            cursor: half_page_up(*old(s)).0,
            viewport: adjusted(half_page_up(*old(s)).1, half_page_up(*old(s)).0),
            ..*old(s)
        }),
{
    let half_page = (s.viewport.height as usize) / 2;
    let new_cursor_line = if s.cursor.line > half_page {
        s.cursor.line - half_page
    } else {
        0
    };
    let new_top_line = if s.viewport.top_line > half_page {
        s.viewport.top_line - half_page
    } else {
        0
    };
    s.cursor = cursor::new(new_cursor_line, 0);
    s.viewport = Viewport { top_line: new_top_line, ..s.viewport };
    s.viewport = viewport::adjust(s.viewport, &s.cursor);
    Ok(())
}

} // verus!
