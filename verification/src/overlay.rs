//! Overlay: a floating search/command panel with a title, a text input and a
//! scrollable list of selectable items. Every operation returns a new value.
use crate::text::{clone_strings, seq_views, to_string};
use vstd::prelude::*;

verus! {

/// A floating overlay panel for search, command palette, or similar UI.
#[derive(Debug)]
pub struct Overlay {
    /// Whether the overlay is currently displayed.
    pub visible: bool,
    /// The overlay title shown in the header.
    pub title: String,
    /// The current text input (search query, command filter, etc.).
    pub input: String,
    /// The list of selectable items displayed in the overlay.
    pub items: Vec<String>,
    /// The index of the currently highlighted item.
    pub cursor_index: usize,
    /// The width of the overlay in columns.
    pub width: usize,
    /// The maximum number of items visible at once (scroll window size).
    pub max_visible_items: usize,
    /// The scroll offset into the items list (first visible item index).
    pub scroll_offset: usize,
    /// Foreground color for normal items (hex string like "#cdd6f4"), empty = default.
    pub fg_color: String,
    /// Background color for the overlay box, empty = default.
    pub bg_color: String,
    /// Foreground color for the highlighted item, empty = default.
    pub highlight_fg: String,
    /// Background color for the highlighted item, empty = default.
    pub highlight_bg: String,
    /// Foreground color for the input/prompt line, empty = default.
    pub prompt_fg: String,
    /// Border color, empty = default.
    pub border_color: String,
}

/// The value of an overlay: its fields, strings taken by their chars.
pub struct OverlayView {
    pub visible: bool,
    pub title: Seq<char>,
    pub input: Seq<char>,
    pub items: Seq<Seq<char>>,
    pub cursor_index: usize,
    pub width: usize,
    pub max_visible_items: usize,
    pub scroll_offset: usize,
    pub fg_color: Seq<char>,
    pub bg_color: Seq<char>,
    pub highlight_fg: Seq<char>,
    pub highlight_bg: Seq<char>,
    pub prompt_fg: Seq<char>,
    pub border_color: Seq<char>,
}

impl View for Overlay {
    type V = OverlayView;

    open spec fn view(&self) -> OverlayView {
        OverlayView {
            visible: self.visible,
            title: self.title@,
            input: self.input@,
            items: seq_views(self.items@),
            cursor_index: self.cursor_index,
            width: self.width,
            max_visible_items: self.max_visible_items,
            scroll_offset: self.scroll_offset,
            fg_color: self.fg_color@,
            bg_color: self.bg_color@,
            highlight_fg: self.highlight_fg@,
            highlight_bg: self.highlight_bg@,
            prompt_fg: self.prompt_fg@,
            border_color: self.border_color@,
        }
    }
}

/// The overlay that `Overlay::default()` and `create` start from: hidden,
/// every string empty, no items, every number zero.
pub open spec fn blank_view() -> OverlayView {
    OverlayView {
        visible: false,
        title: Seq::empty(),
        input: Seq::empty(),
        items: Seq::empty(),
        cursor_index: 0,
        width: 0,
        max_visible_items: 0,
        scroll_offset: 0,
        fg_color: Seq::empty(),
        bg_color: Seq::empty(),
        highlight_fg: Seq::empty(),
        highlight_bg: Seq::empty(),
        prompt_fg: Seq::empty(),
        border_color: Seq::empty(),
    }
}

impl Clone for Overlay {
    /// A copy with equal fields.
    fn clone(&self) -> (r: Self)
        ensures
            r@ == self@,
    {
        Overlay {
            visible: self.visible,
            title: self.title.clone(),
            input: self.input.clone(),
            items: clone_strings(&self.items),
            cursor_index: self.cursor_index,
            width: self.width,
            max_visible_items: self.max_visible_items,
            scroll_offset: self.scroll_offset,
            fg_color: self.fg_color.clone(),
            bg_color: self.bg_color.clone(),
            highlight_fg: self.highlight_fg.clone(),
            highlight_bg: self.highlight_bg.clone(),
            prompt_fg: self.prompt_fg.clone(),
            border_color: self.border_color.clone(),
        }
    }
}

impl Default for Overlay {
    /// A hidden overlay with empty strings, no items and zero sizes.
    fn default() -> (r: Self)
        ensures
            r@ == blank_view(),
    {
        let r = Overlay {
            visible: false,
            title: String::new(),
            input: String::new(),
            items: Vec::new(),
            cursor_index: 0,
            width: 0,
            max_visible_items: 0,
            scroll_offset: 0,
            fg_color: String::new(),
            bg_color: String::new(),
            highlight_fg: String::new(),
            highlight_bg: String::new(),
            prompt_fg: String::new(),
            border_color: String::new(),
        };
        assert(seq_views(r.items@) =~= Seq::<Seq<char>>::empty());
        r
    }
}

/// Returns a new overlay with the six style colors replaced.
pub fn set_style(
    overlay: &Overlay,
    fg: &str,
    bg: &str,
    highlight_fg: &str,
    highlight_bg: &str,
    prompt_fg: &str,
    border_color: &str,
) -> (r: Overlay)
    ensures
        r@ == (OverlayView {
            fg_color: fg@,
            bg_color: bg@,
            highlight_fg: highlight_fg@,
            highlight_bg: highlight_bg@,
            prompt_fg: prompt_fg@,
            border_color: border_color@,
            ..overlay@
        }),
{
    Overlay {
        fg_color: to_string(fg),
        bg_color: to_string(bg),
        highlight_fg: to_string(highlight_fg),
        highlight_bg: to_string(highlight_bg),
        prompt_fg: to_string(prompt_fg),
        border_color: to_string(border_color),
        ..overlay.clone()
    }
}

/// Creates a hidden overlay with the given title, width and number of visible
/// items; input, items, styles are empty and cursor and scroll are zero.
pub fn create(title: &str, width: usize, max_visible_items: usize) -> (r: Overlay)
    ensures
        r@ == (OverlayView { title: title@, width, max_visible_items, ..blank_view() }),
{
    Overlay { title: to_string(title), width, max_visible_items, ..Overlay::default() }
}

/// Resets an overlay: hidden, no input, no items, cursor and scroll at zero;
/// title, sizes and styles are kept.
pub fn reset(overlay: &Overlay) -> (r: Overlay)
    ensures
        r@ == (OverlayView {
            visible: false,
            input: Seq::empty(),
            items: Seq::empty(),
            cursor_index: 0,
            scroll_offset: 0,
            ..overlay@
        }),
{
    let r = Overlay {
        visible: false,
        input: String::new(),
        items: Vec::new(),
        cursor_index: 0,
        scroll_offset: 0,
        ..overlay.clone()
    };
    assert(seq_views(r.items@) =~= Seq::<Seq<char>>::empty());
    r
}

/// Returns a new overlay with the input text replaced.
pub fn set_input(overlay: &Overlay, input: &str) -> (r: Overlay)
    ensures
        r@ == (OverlayView { input: input@, ..overlay@ }),
{
    Overlay { input: to_string(input), ..overlay.clone() }
}

/// Returns a new overlay with the items replaced and cursor and scroll back at zero.
pub fn set_items(overlay: &Overlay, items: Vec<String>) -> (r: Overlay)
    ensures
        r@ == (OverlayView { items: seq_views(items@), cursor_index: 0, scroll_offset: 0, ..overlay@ }),
{
    Overlay { items, cursor_index: 0, scroll_offset: 0, ..overlay.clone() }
}

/// Returns the item under the cursor, or `None` when the cursor is past the items.
pub fn get_selected(overlay: &Overlay) -> (r: Option<String>)
    ensures
        r is Some <==> overlay.cursor_index < overlay.items@.len(),
        r matches Some(s) ==> s@ == overlay@.items[overlay.cursor_index as int],
{
    if overlay.cursor_index < overlay.items.len() {
        Some(overlay.items[overlay.cursor_index].clone())
    } else {
        None
    }
}

/// Returns a new overlay with the cursor one item down, clamped at the last
/// item; at zero when there are no items.
pub fn cursor_down(overlay: &Overlay) -> (r: Overlay)
    requires
        overlay.items@.len() == 0 || overlay.cursor_index < usize::MAX,
    ensures
        r@ == (OverlayView {
            cursor_index: (if overlay.items@.len() == 0 {
                0
            } else if overlay.cursor_index + 1 < overlay.items@.len() - 1 {
                overlay.cursor_index + 1
            } else {
                overlay.items@.len() - 1
            }) as usize,
            ..overlay@
        }),
{
    let n = overlay.items.len();
    let new_index = if n == 0 {
        0
    } else if overlay.cursor_index + 1 < n - 1 {
        overlay.cursor_index + 1
    } else {
        n - 1
    };
    Overlay { cursor_index: new_index, ..overlay.clone() }
}

/// Returns a new overlay with the cursor one item up, clamped at zero.
pub fn cursor_up(overlay: &Overlay) -> (r: Overlay)
    ensures
        r@ == (OverlayView {
            cursor_index: (if overlay.cursor_index > 0 {
                overlay.cursor_index - 1
            } else {
                0
            }) as usize,
            ..overlay@
        }),
{
    let new_index = if overlay.cursor_index > 0 {
        overlay.cursor_index - 1
    } else {
        0
    };
    Overlay { cursor_index: new_index, ..overlay.clone() }
}

/// Moving the cursor keeps it on an item: from a cursor on an item (or any
/// cursor when there are no items, for `cursor_down`), both moves leave the
/// cursor on an item of a non-empty list and at zero on an empty one.
pub proof fn cursor_moves_stay_on_items(v: OverlayView)
    requires
        v.items.len() == 0 || v.cursor_index < v.items.len(),
    ensures
        ({
            let n = v.items.len();
            let down: int = if n == 0 {
                0
            } else if v.cursor_index + 1 < n - 1 {
                v.cursor_index + 1
            } else {
                n - 1
            };
            let up: int = if v.cursor_index > 0 { v.cursor_index - 1 } else { 0 };
            &&& (n == 0 ==> down == 0)
            &&& (n > 0 ==> 0 <= down < n && down >= v.cursor_index)
            &&& (n > 0 ==> 0 <= up < n && up <= v.cursor_index)
        }),
{
}

} // verus!
