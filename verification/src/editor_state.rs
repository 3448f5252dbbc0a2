//! EditorState: the buffer, cursor, viewport, mode, keymaps, status message
//! and running flag of the editor, and the built-in editing commands on it.
use crate::buffer::{self, Buffer};
use crate::cursor::{self, bounded, left_target, Cursor};
use crate::error::AlfredError;
use crate::key_event::KeyEvent;
use crate::str_map::StrMap;
use crate::text::to_string;
use crate::theme::ThemeColor;
use crate::viewport::{self, adjusted, can_adjust, Viewport};
use std::collections::HashMap;
use vstd::prelude::*;

verus! {

broadcast use vstd::std_specs::hash::group_hash_axioms;

/// The mode name of normal mode.
pub const MODE_NORMAL: &'static str = "normal";

/// The mode name of insert mode.
pub const MODE_INSERT: &'static str = "insert";

/// A keymap maps key events to command names; each key has at most one binding.
#[derive(Debug)]
pub struct Keymap {
    entries: Vec<(KeyEvent, String)>,
}

impl Keymap {
    /// The keys of the bindings, in order.
    pub closed spec fn keys(&self) -> Seq<KeyEvent> {
        self.entries@.map_values(|e: (KeyEvent, String)| e.0)
    }

    #[verifier::type_invariant]
    closed spec fn distinct_keys(&self) -> bool {
        self.keys().no_duplicates()
    }
}

impl View for Keymap {
    type V = Map<KeyEvent, Seq<char>>;

    closed spec fn view(&self) -> Map<KeyEvent, Seq<char>> {
        Map::new(
            |k: KeyEvent| self.keys().contains(k),
            |k: KeyEvent| self.entries@[self.keys().index_of(k)].1@,
        )
    }
}

impl Keymap {
    /// Creates an empty keymap.
    pub fn new() -> (m: Self)
        ensures
            m@ == Map::<KeyEvent, Seq<char>>::empty(),
    {
        let m = Keymap { entries: Vec::new() };
        assert(m@ =~= Map::<KeyEvent, Seq<char>>::empty());
        m
    }

    fn position(&self, key: &KeyEvent) -> (r: Option<usize>)
        ensures
            r matches Some(i) ==> i < self.keys().len() && self.keys()[i as int] == *key,
            r is None ==> !self.keys().contains(*key),
    {
        let mut i: usize = 0;
        while i < self.entries.len()
            invariant
                i <= self.entries@.len(),
                forall|j: int| 0 <= j < i ==> self.keys()[j] != *key,
            decreases self.entries@.len() - i,
        {
            if self.entries[i].0 == *key {
                return Some(i);
            }
            i = i + 1;
        }
        None
    }

    /// The command bound to `key`, if any.
    pub fn get(&self, key: &KeyEvent) -> (r: Option<&String>)
        ensures
            match r {
                Some(s) => self@.contains_key(*key) && s@ == self@[*key],
                None => !self@.contains_key(*key),
            },
    {
        proof {
            use_type_invariant(self);
        }
        match self.position(key) {
            Some(i) => {
                proof {
                    assert(self.keys().contains(*key));
                    let j = self.keys().index_of(*key);
                    assert(self.keys()[j] == *key);
                }
                Some(&self.entries[i].1)
            },
            None => None,
        }
    }

    /// Whether `key` has a binding.
    pub fn contains_key(&self, key: &KeyEvent) -> (b: bool)
        ensures
            b == self@.contains_key(*key),
    {
        self.position(key).is_some()
    }

    /// The number of bindings.
    pub fn len(&self) -> (n: usize)
        ensures
            n == self@.dom().len(),
    {
        proof {
            use_type_invariant(self);
            assert(self@.dom() =~= self.keys().to_set());
            self.keys().unique_seq_to_set();
        }
        self.entries.len()
    }

    /// Whether the keymap has no bindings.
    pub fn is_empty(&self) -> (b: bool)
        ensures
            b == (self@.dom().len() == 0),
    {
        self.len() == 0
    }

    /// Binds `key` to `command`, replacing an earlier binding of `key`.
    pub fn insert(&mut self, key: KeyEvent, command: String)
        ensures
            final(self)@ == old(self)@.insert(key, command@),
    {
        proof {
            use_type_invariant(&*self);
        }
        let ghost old_keys = self.keys();
        let ghost cv = command@;
        let pos = self.position(&key);
        let mut entries: Vec<(KeyEvent, String)> = Vec::new();
        std::mem::swap(&mut entries, &mut self.entries);
        let ghost e0 = entries@;
        match pos {
            Some(i) => {
                entries.set(i, (key, command));
                proof {
                    let nk = entries@.map_values(|e: (KeyEvent, String)| e.0);
                    assert(nk =~= old_keys);
                }
                self.entries = entries;
                proof {
                    assert(old_keys[i as int] == key);
                    assert(old_keys.contains(key));
                    assert(old_keys.index_of(key) == i);
                    assert(self@ =~= old(self)@.insert(key, cv)) by {
                        assert forall|k: KeyEvent| #[trigger] self@.contains_key(k) implies self@[k]
                            == old(self)@.insert(key, cv)[k] by {
                            let a = self.keys().index_of(k);
                            if k != key {
                                let b = old_keys.index_of(k);
                                assert(old_keys[a] == k);
                                assert(old_keys[b] == k);
                            }
                        }
                    }
                }
            },
            None => {
                entries.push((key, command));
                proof {
                    let nk = entries@.map_values(|e: (KeyEvent, String)| e.0);
                    assert(nk =~= old_keys.push(key));
                    assert forall|x: int, y: int| 0 <= x < y < nk.len() implies nk[x] != nk[y] by {
                        if y == nk.len() - 1 {
                            assert(old_keys[x] == nk[x]);
                        } else {
                            assert(old_keys[x] == nk[x] && old_keys[y] == nk[y]);
                        }
                    }
                }
                self.entries = entries;
                proof {
                    let n = old_keys.len() as int;
                    assert(self@ =~= old(self)@.insert(key, cv)) by {
                        assert forall|k: KeyEvent| #[trigger] self@.contains_key(k) implies self@[k]
                            == old(self)@.insert(key, cv)[k] by {
                            let a = self.keys().index_of(k);
                            if k == key {
                                assert(self.keys()[n] == key);
                            } else {
                                assert(old_keys.contains(k));
                                let b = old_keys.index_of(k);
                                assert(old_keys[b] == k);
                                assert(self.keys()[b] == k);
                            }
                        }
                        assert forall|k: KeyEvent| #[trigger] old(self)@.insert(key, cv).contains_key(k)
                            implies self@.contains_key(k) by {
                            if k == key {
                                assert(self.keys()[n] == key);
                            } else {
                                let b = old_keys.index_of(k);
                                assert(self.keys()[b] == k);
                            }
                        }
                    }
                }
            },
        }
    }
}

impl Default for Keymap {
    /// An empty keymap.
    fn default() -> (m: Self)
        ensures
            m@ == Map::<KeyEvent, Seq<char>>::empty(),
    {
        Keymap::new()
    }
}

/// A style segment of a buffer line: start column, end column, color.
pub type LineStyle = (usize, usize, ThemeColor);

/// The top-level editor state.
pub struct EditorState {
    pub buffer: Buffer,
    pub cursor: Cursor,
    pub viewport: Viewport,
    pub mode: String,
    pub keymaps: StrMap<Keymap>,
    pub active_keymaps: Vec<String>,
    pub message: Option<String>,
    pub running: bool,
    /// Per-line style segments of the buffer: line number to segments.
    pub line_styles: HashMap<usize, Vec<LineStyle>>,
}

/// Creates the initial editor state: an empty buffer, the cursor at (0, 0), a
/// viewport of the terminal's size from line 0, normal mode, no keymaps, no
/// message, running.
pub fn new(width: u16, height: u16) -> (s: EditorState)
    ensures
        s.buffer@ == Seq::<char>::empty(),
        s.cursor == (Cursor { line: 0, column: 0 }),
        s.viewport == (Viewport { top_line: 0, height, width, gutter_width: 0 }),
        s.mode@ == "normal"@,
        s.keymaps@ == Map::<Seq<char>, Keymap>::empty(),
        s.active_keymaps@.len() == 0,
        s.message is None,
        s.running,
        s.line_styles@ == Map::<usize, Vec<LineStyle>>::empty(),
{
    proof {
        reveal_strlit("");
    }
    EditorState {
        buffer: Buffer::from_string(""),
        cursor: cursor::new(0, 0),
        viewport: viewport::new(0, height, width),
        mode: to_string(MODE_NORMAL),
        keymaps: StrMap::new(),
        active_keymaps: Vec::new(),
        message: None,
        running: true,
        line_styles: HashMap::new(),
    }
}

/// The command that the first of the keymaps named in `names` (in order)
/// binds `key` to; names without a keymap are passed over.
pub open spec fn resolve_in(names: Seq<Seq<char>>, maps: Map<Seq<char>, Keymap>, key: KeyEvent) -> Option<Seq<char>>
    decreases names.len(),
{
    if names.len() == 0 {
        None
    } else if maps.contains_key(names[0]) && maps[names[0]]@.contains_key(key) {
        Some(maps[names[0]]@[key])
    } else {
        resolve_in(names.drop_first(), maps, key)
    }
}

/// Resolves a key event in the active keymaps: the command bound to it in the
/// first active keymap that binds it, or `None`.
pub fn resolve_key(state: &EditorState, key: KeyEvent) -> (r: Option<String>)
    ensures
        match resolve_in(crate::text::seq_views(state.active_keymaps@), state.keymaps@, key) {
            Some(c) => r matches Some(x) && x@ == c,
            None => r is None,
        },
{
    let ghost names = crate::text::seq_views(state.active_keymaps@);
    let mut i: usize = 0;
    assert(names.subrange(0, names.len() as int) =~= names);
    while i < state.active_keymaps.len()
        invariant
            i <= state.active_keymaps@.len(),
            names == crate::text::seq_views(state.active_keymaps@),
            resolve_in(names, state.keymaps@, key) == resolve_in(
                names.subrange(i as int, names.len() as int),
                state.keymaps@,
                key,
            ),
        decreases state.active_keymaps@.len() - i,
    {
        let ghost rest = names.subrange(i as int, names.len() as int);
        proof {
            assert(rest[0] == state.active_keymaps@[i as int]@);
            assert(rest.drop_first() =~= names.subrange(i + 1, names.len() as int));
        }
        match state.keymaps.get(state.active_keymaps[i].as_str()) {
            Some(keymap) => {
                match keymap.get(&key) {
                    Some(command) => {
                        return Some(command.clone());
                    },
                    None => {},
                }
            },
            None => {},
        }
        i = i + 1;
    }
    None
}

/// The state with a new cursor and the viewport adjusted to it; everything
/// else as in `s`.
pub open spec fn moved_to(s: EditorState, c: Cursor) -> EditorState {
    EditorState { cursor: c, viewport: adjusted(s.viewport, c), ..s }
}

/// Deletes the char before the cursor (backspace): the cursor moves left and
/// the char there is deleted; nothing happens at the start of the buffer.
pub fn delete_backward(s: &mut EditorState) -> (r: Result<(), AlfredError>)
    requires
        old(s).buffer.spec_version() < u64::MAX,
        !(old(s).cursor.line == 0 && old(s).cursor.column == 0) ==> can_adjust(
            old(s).viewport,
            left_target(&old(s).buffer, old(s).cursor),
        ),
    ensures
        r is Ok,
        old(s).cursor.line == 0 && old(s).cursor.column == 0 ==> *final(s) == *old(s),
        !(old(s).cursor.line == 0 && old(s).cursor.column == 0) ==> {
            let c = left_target(&old(s).buffer, old(s).cursor);
            &&& final(s).cursor == c
            &&& final(s).viewport == adjusted(old(s).viewport, c)
            &&& buffer::deleted_at(&old(s).buffer, &final(s).buffer, c.line as int, c.column as int)
            &&& final(s).mode == old(s).mode
            &&& final(s).message == old(s).message
            &&& final(s).running == old(s).running
        },
{
    if s.cursor.line == 0 && s.cursor.column == 0 {
        return Ok(());
    }
    s.cursor = cursor::move_left(s.cursor, &s.buffer);
    s.buffer = buffer::delete_at(&s.buffer, s.cursor.line, s.cursor.column);
    s.viewport = viewport::adjust(s.viewport, &s.cursor);
    Ok(())
}


/// Deletes the char under the cursor (vim `x`), then clamps the cursor into
/// the new buffer; at the end of the buffer nothing is deleted.
pub fn delete_char_at_cursor(s: &mut EditorState) -> (r: Result<(), AlfredError>)
    requires
        old(s).buffer.spec_version() < u64::MAX,
        forall|b: Buffer|
            buffer::deleted_at(&old(s).buffer, &b, old(s).cursor.line as int, old(s).cursor.column as int)
                ==> #[trigger] can_adjust(old(s).viewport, bounded(&b, old(s).cursor)),
    ensures
        r is Ok,
        buffer::deleted_at(&old(s).buffer, &final(s).buffer, old(s).cursor.line as int, old(s).cursor.column as int),
        final(s).cursor == bounded(&final(s).buffer, old(s).cursor),
        final(s).viewport == adjusted(old(s).viewport, final(s).cursor),
        final(s).mode == old(s).mode,
        final(s).message == old(s).message,
        final(s).running == old(s).running,
{
    s.buffer = buffer::delete_at(&s.buffer, s.cursor.line, s.cursor.column);
    s.cursor = cursor::ensure_within_bounds(s.cursor, &s.buffer);
    s.viewport = viewport::adjust(s.viewport, &s.cursor);
    Ok(())
}

/// Deletes the cursor's line (vim `dd`), then clamps the cursor into the new buffer.
pub fn delete_line(s: &mut EditorState) -> (r: Result<(), AlfredError>)
    requires
        old(s).buffer.spec_version() < u64::MAX,
        forall|b: Buffer|
            buffer::line_deleted(&old(s).buffer, &b, old(s).cursor.line as int) ==> #[trigger] can_adjust(
                old(s).viewport,
                bounded(&b, old(s).cursor),
            ),
    ensures
        r is Ok,
        buffer::line_deleted(&old(s).buffer, &final(s).buffer, old(s).cursor.line as int),
        final(s).cursor == bounded(&final(s).buffer, old(s).cursor),
        final(s).viewport == adjusted(old(s).viewport, final(s).cursor),
        final(s).mode == old(s).mode,
        final(s).message == old(s).message,
        final(s).running == old(s).running,
{
    s.buffer = buffer::delete_line(&s.buffer, s.cursor.line);
    s.cursor = cursor::ensure_within_bounds(s.cursor, &s.buffer);
    s.viewport = viewport::adjust(s.viewport, &s.cursor);
    Ok(())
}

/// The line styles as sequences of segments.
pub open spec fn styles_view(m: Map<usize, Vec<LineStyle>>) -> Map<usize, Seq<LineStyle>> {
    m.map_values(|v: Vec<LineStyle>| v@)
}

/// Removes every line style.
pub fn clear_line_styles(s: &mut EditorState)
    ensures
        final(s).line_styles@ == Map::<usize, Vec<LineStyle>>::empty(),
        *final(s) == (EditorState { line_styles: final(s).line_styles, ..*old(s) }),
{
    s.line_styles.clear();
}

/// Adds a style segment at the end of the segments of one buffer line.
pub fn add_line_style(s: &mut EditorState, line: usize, start: usize, end: usize, color: ThemeColor)
    ensures
        styles_view(final(s).line_styles@) == crate::panel::with_segment(
            styles_view(old(s).line_styles@),
            line,
            (start, end, color),
        ),
        *final(s) == (EditorState { line_styles: final(s).line_styles, ..*old(s) }),
{
    let mut segs = match s.line_styles.remove(&line) {
        Some(v) => v,
        None => Vec::new(),
    };
    segs.push((start, end, color));
    s.line_styles.insert(line, segs);
    proof {
        assert(styles_view(s.line_styles@) =~= crate::panel::with_segment(
            styles_view(old(s).line_styles@),
            line,
            (start, end, color),
        ));
    }
}

/// What a binding writes, resolution reads back: when the one active keymap
/// is `name` and it binds `key` to `command` (as `define-key` leaves it, the
/// keymap's other bindings kept), resolving `key` gives `command`.
pub proof fn bound_key_resolves(
    before: Map<Seq<char>, Keymap>,
    after: Map<Seq<char>, Keymap>,
    name: Seq<char>,
    key: KeyEvent,
    command: Seq<char>,
)
    requires
        before.contains_key(name),
        after.dom() == before.dom(),
        after[name]@ == before[name]@.insert(key, command),
    ensures
        resolve_in(seq![name], after, key) == Some(command),
{
    assert(after.contains_key(name));
    assert(after[name]@.contains_key(key));
}
} // verus!
