//! Viewport: the visible window into a buffer, and the scrolling rule that
//! keeps the cursor inside it.
use crate::cursor::Cursor;
use vstd::prelude::*;

verus! {

/// The visible window into a buffer: the first visible line, the number of
/// visible lines and columns, and the columns reserved for the gutter.
#[derive(Debug, Clone, Copy, PartialEq, Eq, Structural)]
pub struct Viewport {
    pub top_line: usize,
    pub height: u16,
    pub width: u16,
    pub gutter_width: u16,
}

/// Creates a new Viewport with the given dimensions and a zero-width gutter.
pub fn new(top_line: usize, height: u16, width: u16) -> (v: Viewport)
    ensures
        v == (Viewport { top_line, height, width, gutter_width: 0 }),
{
    Viewport { top_line, height, width, gutter_width: 0 }
}

/// Whether the line `line` is shown by the viewport.
pub open spec fn shows(v: Viewport, line: int) -> bool {
    v.top_line <= line < v.top_line + v.height
}

/// What `adjust` may be asked: the window's end fits in `usize`, and a window
/// of height 0 is never asked to scroll down.
pub open spec fn can_adjust(v: Viewport, c: Cursor) -> bool {
    &&& v.top_line + v.height <= usize::MAX
    &&& (v.height == 0 ==> c.line < v.top_line)
}

/// The viewport scrolled just enough to show `c.line`.
pub open spec fn adjusted(v: Viewport, c: Cursor) -> Viewport {
    if c.line < v.top_line {
        Viewport { top_line: c.line, ..v }
    } else if c.line >= v.top_line + v.height {
        Viewport { top_line: (c.line - (v.height - 1)) as usize, ..v }
    } else {
        v
    }
}

/// Returns the viewport adjusted so that the cursor's line is visible: scrolled
/// up to the cursor's line when it is above, scrolled down so that it is the last
/// visible line when it is below, unchanged when it is already visible.
pub fn adjust(viewport: Viewport, cursor: &Cursor) -> (r: Viewport)
    requires
        can_adjust(viewport, *cursor),
    ensures
        r == adjusted(viewport, *cursor),
        r.height == viewport.height,
        r.width == viewport.width,
        r.gutter_width == viewport.gutter_width,
        viewport.height > 0 ==> shows(r, cursor.line as int),
        shows(viewport, cursor.line as int) ==> r == viewport,
{
    if cursor.line < viewport.top_line {
        Viewport { top_line: cursor.line, ..viewport }
    } else if cursor.line >= viewport.top_line + viewport.height as usize {
        Viewport { top_line: cursor.line - (viewport.height as usize - 1), ..viewport }
    } else {
        viewport
    }
}

/// Adjusting is idempotent: once adjusted for a cursor, adjusting again for the
/// same cursor changes nothing, and the cursor's line is visible.
pub proof fn adjust_is_idempotent(v: Viewport, c: Cursor)
    requires
        can_adjust(v, c),
        v.height > 0,
        c.line < usize::MAX,
    ensures
        can_adjust(adjusted(v, c), c),
        shows(adjusted(v, c), c.line as int),
        adjusted(adjusted(v, c), c) == adjusted(v, c),
{
}

} // verus!
