//! Browser: the folder browser's entries, cursor, scrolling and navigation
//! history. Directory listings are read elsewhere and handed in.
use crate::paths::{join_name, parent_of, path_join, path_parent, path_strip_prefix, path_text, strip_prefix_of, text_of};
use crate::text::{lowercase, str_to_chars, str_to_lowercase, string_push, to_string};
use std::path::PathBuf;
use vstd::prelude::*;

verus! {

/// The mode name for browse mode.
pub const MODE_BROWSE: &'static str = "browse";

/// Discriminates the type of a filesystem entry.
#[derive(Debug, Clone, Copy, PartialEq, Eq, Structural)]
pub enum EntryKind {
    /// The synthetic `../` entry for navigating to the parent directory.
    ParentDir,
    /// A directory entry, displayed with trailing `/`.
    Directory,
    /// A regular file entry.
    File,
    /// A symbolic link; `target_is_dir` tells what it resolves to.
    Symlink { target_is_dir: bool },
}

/// A single entry in a directory listing.
#[derive(Debug, Clone, PartialEq, Eq)]
pub struct DirEntry {
    pub name: String,
    pub kind: EntryKind,
    pub is_hidden: bool,
}

/// The value of a directory entry: its name's chars, kind and hidden flag.
pub struct DirEntryView {
    pub name: Seq<char>,
    pub kind: EntryKind,
    pub is_hidden: bool,
}

impl View for DirEntry {
    type V = DirEntryView;

    open spec fn view(&self) -> DirEntryView {
        DirEntryView { name: self.name@, kind: self.kind, is_hidden: self.is_hidden }
    }
}

/// The values of a list of entries.
pub open spec fn entry_views(s: Seq<DirEntry>) -> Seq<DirEntryView> {
    s.map_values(|e: DirEntry| e@)
}

/// A stack entry recording where the user was before entering a subdirectory.
#[derive(Debug, Clone)]
pub struct NavigationEntry {
    pub dir: PathBuf,
    pub cursor_index: usize,
}

/// The aggregate state of the folder browser.
#[derive(Debug)]
pub struct BrowserState {
    pub root_dir: PathBuf,
    pub current_dir: PathBuf,
    pub entries: Vec<DirEntry>,
    pub cursor_index: usize,
    pub scroll_offset: usize,
    pub navigation_history: Vec<NavigationEntry>,
    pub show_hidden: bool,
}

/// How an entry is displayed: "../" for the parent entry, the name with a
/// trailing '/' for directories and symlinks to directories, the bare name else.
pub open spec fn display_text(e: DirEntryView) -> Seq<char> {
    match e.kind {
        EntryKind::ParentDir => "../"@,
        EntryKind::Directory => e.name.push('/'),
        EntryKind::File => e.name,
        EntryKind::Symlink { target_is_dir } => if target_is_dir {
            e.name.push('/')
        } else {
            e.name
        },
    }
}

/// Returns the display name for an entry.
pub fn display_name(entry: &DirEntry) -> (s: String)
    ensures
        s@ == display_text(entry@),
{
    match entry.kind {
        EntryKind::ParentDir => to_string("../"),
        EntryKind::Directory => {
            let mut s = entry.name.clone();
            string_push(&mut s, '/');
            s
        },
        EntryKind::File => entry.name.clone(),
        EntryKind::Symlink { target_is_dir } => {
            let mut s = entry.name.clone();
            if target_is_dir {
                string_push(&mut s, '/');
            }
            s
        },
    }
}

/// Whether an entry is entered as a directory: the parent entry, a directory,
/// or a symlink to a directory.
pub open spec fn is_dir_kind(k: EntryKind) -> bool {
    match k {
        EntryKind::ParentDir | EntryKind::Directory => true,
        EntryKind::Symlink { target_is_dir } => target_is_dir,
        EntryKind::File => false,
    }
}

/// Returns true if the entry is a directory (or symlink to directory, or parent dir).
pub fn is_directory_entry(entry: &DirEntry) -> (b: bool)
    ensures
        b == is_dir_kind(entry.kind),
{
    match entry.kind {
        EntryKind::ParentDir | EntryKind::Directory => true,
        EntryKind::Symlink { target_is_dir } => target_is_dir,
        EntryKind::File => false,
    }
}

/// The group of an entry in sorted order: the parent entry, then directories
/// (and symlinks to directories), then files (and other symlinks).
pub open spec fn kind_rank(k: EntryKind) -> int {
    match k {
        EntryKind::ParentDir => 0,
        EntryKind::Directory => 1,
        EntryKind::Symlink { target_is_dir } => if target_is_dir {
            1
        } else {
            2
        },
        EntryKind::File => 2,
    }
}

/// Lexicographic order on char sequences, by code point (the order of `String`).
pub open spec fn seq_lt(a: Seq<char>, b: Seq<char>) -> bool
    decreases a.len(),
{
    if b.len() == 0 {
        false
    } else if a.len() == 0 {
        true
    } else if a[0] != b[0] {
        a[0] < b[0]
    } else {
        seq_lt(a.drop_first(), b.drop_first())
    }
}

/// The order of `sort_entries`: by group, then by lowercased name.
pub open spec fn entry_lt(a: DirEntryView, b: DirEntryView) -> bool {
    kind_rank(a.kind) < kind_rank(b.kind) || (kind_rank(a.kind) == kind_rank(b.kind) && seq_lt(
        lowercase(a.name),
        lowercase(b.name),
    ))
}

/// `idx` is a permutation of `0..n`.
pub open spec fn is_permutation(idx: Seq<int>, n: int) -> bool {
    &&& idx.len() == n
    &&& forall|k: int| 0 <= k < n ==> 0 <= #[trigger] idx[k] < n
    &&& forall|k: int, l: int| 0 <= k < l < n ==> #[trigger] idx[k] != #[trigger] idx[l]
}

/// `dst` holds the entries of `src` sorted by `entry_lt`, entries that compare
/// equal keeping their order in `src` (a stable sort).
pub open spec fn stable_sorted(src: Seq<DirEntryView>, dst: Seq<DirEntryView>) -> bool {
    exists|idx: Seq<int>|
        {
            &&& is_permutation(idx, src.len() as int)
            &&& dst.len() == src.len()
            &&& forall|k: int| 0 <= k < dst.len() ==> #[trigger] dst[k] == src[idx[k]]
            &&& forall|k: int, l: int|
                0 <= k < l < dst.len() ==> !entry_lt(#[trigger] dst[l], #[trigger] dst[k]) && (!entry_lt(
                    dst[k],
                    dst[l],
                ) ==> idx[k] < idx[l])
        }
}

/// Lexicographic order is total and asymmetric.
pub proof fn lemma_seq_lt_total(a: Seq<char>, b: Seq<char>)
    ensures
        seq_lt(a, b) || seq_lt(b, a) || a == b,
        !(seq_lt(a, b) && seq_lt(b, a)),
    decreases a.len(),
{
    if a.len() > 0 && b.len() > 0 && a[0] == b[0] {
        lemma_seq_lt_total(a.drop_first(), b.drop_first());
        if a.drop_first() == b.drop_first() {
            assert(a =~= seq![a[0]] + a.drop_first());
            assert(b =~= seq![b[0]] + b.drop_first());
        }
    } else if a.len() == 0 && b.len() == 0 {
        assert(a =~= b);
    }
}

/// Lexicographic order is transitive.
pub proof fn lemma_seq_lt_trans(a: Seq<char>, b: Seq<char>, c: Seq<char>)
    requires
        seq_lt(a, b),
        seq_lt(b, c),
    ensures
        seq_lt(a, c),
    decreases a.len(),
{
    if a.len() > 0 && a[0] == b[0] && b[0] == c[0] {
        lemma_seq_lt_trans(a.drop_first(), b.drop_first(), c.drop_first());
    }
}

/// `entry_lt` orders entries totally up to equal keys: "not after" is transitive.
proof fn lemma_entry_le_trans(x: DirEntryView, y: DirEntryView, z: DirEntryView)
    requires
        !entry_lt(y, x),
        !entry_lt(z, y),
    ensures
        !entry_lt(z, x),
{
    lemma_seq_lt_total(lowercase(x.name), lowercase(y.name));
    lemma_seq_lt_total(lowercase(y.name), lowercase(z.name));
    lemma_seq_lt_total(lowercase(x.name), lowercase(z.name));
    if entry_lt(z, x) {
        if kind_rank(x.kind) == kind_rank(y.kind) && kind_rank(y.kind) == kind_rank(z.kind) {
            if seq_lt(lowercase(y.name), lowercase(z.name)) {
                lemma_seq_lt_trans(lowercase(y.name), lowercase(z.name), lowercase(x.name));
            }
        }
    }
}

proof fn lemma_entry_lt_asym(x: DirEntryView, y: DirEntryView)
    ensures
        entry_lt(x, y) ==> !entry_lt(y, x),
{
    lemma_seq_lt_total(lowercase(x.name), lowercase(y.name));
}

/// The group rank of an entry kind.
fn sort_key(k: EntryKind) -> (r: u8)
    ensures
        r as int == kind_rank(k),
{
    match k {
        EntryKind::ParentDir => 0,
        EntryKind::Directory => 1,
        EntryKind::Symlink { target_is_dir } => if target_is_dir {
            1
        } else {
            2
        },
        EntryKind::File => 2,
    }
}

/// Whether `a` comes before `b` in lexicographic char order.
pub fn chars_lt(a: &Vec<char>, b: &Vec<char>) -> (r: bool)
    ensures
        r == seq_lt(a@, b@),
{
    let mut i: usize = 0;
    assert(a@.subrange(0, a@.len() as int) =~= a@);
    assert(b@.subrange(0, b@.len() as int) =~= b@);
    while i < a.len() && i < b.len() && a[i] == b[i]
        invariant
            i <= a@.len(),
            i <= b@.len(),
            seq_lt(a@, b@) == seq_lt(a@.subrange(i as int, a@.len() as int), b@.subrange(i as int, b@.len() as int)),
        decreases a@.len() - i,
    {
        proof {
            let sa = a@.subrange(i as int, a@.len() as int);
            let sb = b@.subrange(i as int, b@.len() as int);
            assert(sa.drop_first() =~= a@.subrange(i + 1, a@.len() as int));
            assert(sb.drop_first() =~= b@.subrange(i + 1, b@.len() as int));
        }
        i = i + 1;
    }
    if i >= b.len() {
        false
    } else if i >= a.len() {
        true
    } else {
        a[i] < b[i]
    }
}

/// The sort key of an entry: group rank and lowercased name.
fn key_of(e: &DirEntry) -> (k: (u8, Vec<char>))
    ensures
        k.0 as int == kind_rank(e.kind),
        k.1@ == lowercase(e.name@),
{
    let lower = str_to_lowercase(e.name.as_str());
    (sort_key(e.kind), str_to_chars(lower.as_str()))
}

fn key_lt(a: &(u8, Vec<char>), b: &(u8, Vec<char>)) -> (r: bool)
    ensures
        r == (a.0 < b.0 || (a.0 == b.0 && seq_lt(a.1@, b.1@))),
{
    a.0 < b.0 || (a.0 == b.0 && chars_lt(&a.1, &b.1))
}

/// Sorts entries: the parent entry first, then directories, then files, each
/// group by case-insensitive (lowercased) name; entries that compare equal keep
/// their order.
pub fn sort_entries(entries: &mut Vec<DirEntry>)
    ensures
        stable_sorted(entry_views(old(entries)@), entry_views(final(entries)@)),
{
    let ghost src = entry_views(entries@);
    let mut rest: Vec<DirEntry> = Vec::new();
    std::mem::swap(&mut rest, entries);
    let n = rest.len();
    let ghost all = rest@;
    let mut out: Vec<DirEntry> = Vec::new();
    let mut keys: Vec<(u8, Vec<char>)> = Vec::new();
    let ghost mut idx: Seq<int> = Seq::empty();
    let mut j: usize = 0;
    while rest.len() > 0
        invariant
            src == entry_views(all),
            n == all.len(),
            j + rest@.len() == n,
            rest@ == all.subrange(j as int, n as int),
            out@.len() == j,
            keys@.len() == j,
            idx.len() == j,
            forall|k: int| 0 <= k < j ==> 0 <= #[trigger] idx[k] < j,
            forall|k: int, l: int| 0 <= k < l < j ==> #[trigger] idx[k] != #[trigger] idx[l],
            forall|k: int| 0 <= k < j ==> #[trigger] out@[k]@ == src[idx[k]],
            forall|k: int|
                0 <= k < j ==> (#[trigger] keys@[k]).0 as int == kind_rank(out@[k]@.kind) && keys@[k].1@
                    == lowercase(out@[k]@.name),
            forall|k: int, l: int|
                0 <= k < l < j ==> !entry_lt(#[trigger] out@[l]@, #[trigger] out@[k]@) && (!entry_lt(
                    out@[k]@,
                    out@[l]@,
                ) ==> idx[k] < idx[l]),
        decreases rest@.len(),
    {
        let e = rest.remove(0);
        let key = key_of(&e);
        let mut at = out.len();
        while at > 0 && key_lt(&key, &keys[at - 1])
            invariant
                at <= out@.len(),
                keys@.len() == out@.len(),
                key.0 as int == kind_rank(e@.kind),
                key.1@ == lowercase(e@.name),
                forall|k: int|
                    0 <= k < out@.len() ==> (#[trigger] keys@[k]).0 as int == kind_rank(out@[k]@.kind)
                        && keys@[k].1@ == lowercase(out@[k]@.name),
                forall|k: int| at <= k < out@.len() ==> entry_lt(e@, #[trigger] out@[k]@),
            decreases at,
        {
            at = at - 1;
        }
        let ghost o0 = out@;
        let ghost i0 = idx;
        proof {
            assert(e@ == src[j as int]) by {
                assert(all[j as int] == e);
            }
            if at > 0 {
                assert(!entry_lt(e@, o0[at - 1]@));
            }
        }
        out.insert(at, e);
        keys.insert(at, key);
        proof {
            idx = i0.insert(at as int, j as int);
            assert(rest@ =~= all.subrange(j + 1, n as int));
            assert forall|k: int, l: int| 0 <= k < l < j + 1 implies !entry_lt(
                #[trigger] out@[l]@,
                #[trigger] out@[k]@,
            ) && (!entry_lt(out@[k]@, out@[l]@) ==> idx[k] < idx[l]) by {
                if l < at {
                    assert(out@[k] == o0[k] && out@[l] == o0[l]);
                } else if l == at {
                    assert(out@[k] == o0[k]);
                    if k < at - 1 {
                        lemma_entry_le_trans(o0[k]@, o0[at - 1]@, out@[l]@);
                    }
                } else if k == at {
                    assert(out@[l] == o0[l - 1]);
                    lemma_entry_lt_asym(out@[k]@, out@[l]@);
                } else if k < at {
                    assert(out@[k] == o0[k]);
                    assert(out@[l] == o0[l - 1]);
                } else {
                    assert(out@[k] == o0[k - 1]);
                    assert(out@[l] == o0[l - 1]);
                }
            }
        }
        j = j + 1;
    }
    proof {
        assert(is_permutation(idx, n as int));
        assert(entry_views(out@).len() == src.len());
        assert forall|k: int| 0 <= k < src.len() implies #[trigger] entry_views(out@)[k] == src[idx[k]] by {}
        assert forall|k: int, l: int| 0 <= k < l < src.len() implies !entry_lt(
            #[trigger] entry_views(out@)[l],
            #[trigger] entry_views(out@)[k],
        ) && (!entry_lt(entry_views(out@)[k], entry_views(out@)[l]) ==> idx[k] < idx[l]) by {
            assert(entry_views(out@)[k] == out@[k]@);
            assert(entry_views(out@)[l] == out@[l]@);
        }
    }
    *entries = out;
}


/// The synthetic entry for the parent directory.
pub open spec fn parent_entry_view() -> DirEntryView {
    DirEntryView { name: ".."@, kind: EntryKind::ParentDir, is_hidden: false }
}

/// A listing with the parent entry added at its end when `dir` has a parent.
pub open spec fn with_parent_entry(es: Seq<DirEntryView>, dir: PathBuf) -> Seq<DirEntryView> {
    if path_parent(dir) is Some {
        es.push(parent_entry_view())
    } else {
        es
    }
}

fn add_parent_entry(entries: &mut Vec<DirEntry>, dir: &PathBuf)
    ensures
        entry_views(final(entries)@) == with_parent_entry(entry_views(old(entries)@), *dir),
{
    if parent_of(dir).is_some() {
        entries.push(DirEntry { name: to_string(".."), kind: EntryKind::ParentDir, is_hidden: false });
        assert(entry_views(entries@) =~= entry_views(old(entries)@).push(parent_entry_view()));
    }
}

/// Creates the browser state for a directory from its pre-read entries: the
/// parent entry is added when the directory has a parent, the entries are
/// sorted, and cursor, scroll and history start empty.
pub fn new_browser_state(root_dir: PathBuf, current_dir: PathBuf, entries: Vec<DirEntry>) -> (r: BrowserState)
    ensures
        r.root_dir == root_dir,
        r.current_dir == current_dir,
        stable_sorted(with_parent_entry(entry_views(entries@), current_dir), entry_views(r.entries@)),
        r.cursor_index == 0,
        r.scroll_offset == 0,
        r.navigation_history@.len() == 0,
        !r.show_hidden,
{
    let mut entries = entries;
    add_parent_entry(&mut entries, &current_dir);
    sort_entries(&mut entries);
    BrowserState {
        root_dir,
        current_dir,
        entries,
        cursor_index: 0,
        scroll_offset: 0,
        navigation_history: Vec::new(),
        show_hidden: false,
    }
}

/// The state with only the cursor changed.
pub open spec fn with_cursor(s: BrowserState, c: usize) -> BrowserState {
    BrowserState { cursor_index: c, ..s }
}

/// Moves the browser cursor down by one, stopping at the last entry.
pub fn cursor_down(state: &mut BrowserState)
    ensures
        *final(state) == with_cursor(
            *old(state),
            (if old(state).entries@.len() > 0 && old(state).cursor_index < old(state).entries@.len() - 1 {
                old(state).cursor_index + 1
            } else {
                old(state).cursor_index as int
            }) as usize,
        ),
{
    if state.entries.len() > 0 && state.cursor_index < state.entries.len() - 1 {
        state.cursor_index = state.cursor_index + 1;
    }
}

/// Moves the browser cursor up by one, stopping at 0.
pub fn cursor_up(state: &mut BrowserState)
    ensures
        *final(state) == with_cursor(
            *old(state),
            (if old(state).cursor_index > 0 {
                old(state).cursor_index - 1
            } else {
                0
            }) as usize,
        ),
{
    if state.cursor_index > 0 {
        state.cursor_index = state.cursor_index - 1;
    }
}

/// Jumps the cursor to the first entry.
pub fn jump_first(state: &mut BrowserState)
    ensures
        *final(state) == with_cursor(*old(state), 0),
{
    state.cursor_index = 0;
}

/// Jumps the cursor to the last entry (no change when there are no entries).
pub fn jump_last(state: &mut BrowserState)
    ensures
        *final(state) == with_cursor(
            *old(state),
            (if old(state).entries@.len() > 0 {
                old(state).entries@.len() - 1
            } else {
                old(state).cursor_index as int
            }) as usize,
        ),
{
    if state.entries.len() > 0 {
        state.cursor_index = state.entries.len() - 1;
    }
}

/// Returns the entry under the cursor, if any.
pub fn current_entry(state: &BrowserState) -> (r: Option<&DirEntry>)
    ensures
        r == (if state.cursor_index < state.entries@.len() {
            Some(&state.entries@[state.cursor_index as int])
        } else {
            None
        }),
{
    if state.cursor_index < state.entries.len() {
        Some(&state.entries[state.cursor_index])
    } else {
        None
    }
}

/// The path that the entry `e` of a listing of `dir` leads to: the parent of
/// `dir` (or `dir` itself at a root) for the parent entry, `dir` joined with the
/// entry's name otherwise.
pub open spec fn entry_path(dir: PathBuf, e: DirEntryView) -> PathBuf {
    match e.kind {
        EntryKind::ParentDir => match path_parent(dir) {
            Some(p) => p,
            None => dir,
        },
        _ => path_join(dir, e.name),
    }
}

/// Returns the full path of the entry under the cursor, if any.
pub fn current_entry_path(state: &BrowserState) -> (r: Option<PathBuf>)
    ensures
        r == (if state.cursor_index < state.entries@.len() {
            Some(entry_path(state.current_dir, state.entries@[state.cursor_index as int]@))
        } else {
            None
        }),
{
    match current_entry(state) {
        None => None,
        Some(entry) => match entry.kind {
            EntryKind::ParentDir => match parent_of(&state.current_dir) {
                Some(p) => Some(p),
                None => Some(state.current_dir.clone()),
            },
            _ => Some(join_name(&state.current_dir, entry.name.as_str())),
        },
    }
}

/// The scroll offset after making the cursor visible in a window of `h` rows.
pub open spec fn visible_scroll(cursor: int, scroll: int, h: int) -> int {
    if h == 0 {
        scroll
    } else {
        let s1 = if cursor < scroll { cursor } else { scroll };
        if cursor >= s1 + h { cursor - h + 1 } else { s1 }
    }
}

/// Updates the scroll offset so that the cursor lies within a window of
/// `visible_height` rows: scrolled up to the cursor when it is above, down so
/// that it is the last row when it is below; unchanged for a window of height 0.
pub fn ensure_cursor_visible(state: &mut BrowserState, visible_height: usize)
    requires
        visible_height == 0 || (if old(state).cursor_index < old(state).scroll_offset {
            old(state).cursor_index
        } else {
            old(state).scroll_offset
        }) + visible_height <= usize::MAX,
    ensures
        *final(state) == (BrowserState {
            scroll_offset: visible_scroll(
                old(state).cursor_index as int,
                old(state).scroll_offset as int,
                visible_height as int,
            ) as usize,
            ..*old(state)
        }),
        visible_height > 0 ==> final(state).scroll_offset <= final(state).cursor_index
            < final(state).scroll_offset + visible_height,
{
    if visible_height == 0 {
        return;
    }
    if state.cursor_index < state.scroll_offset {
        state.scroll_offset = state.cursor_index;
    }
    if state.cursor_index >= state.scroll_offset + visible_height {
        state.scroll_offset = state.cursor_index - visible_height + 1;
    }
}

/// Enters a subdirectory: the current directory and cursor are pushed on the
/// history, and the new listing (with its parent entry) is sorted and shown
/// from the top.
pub fn enter_directory(state: &mut BrowserState, new_dir: PathBuf, new_entries: Vec<DirEntry>)
    ensures
        final(state).navigation_history@ == old(state).navigation_history@.push(
            NavigationEntry { dir: old(state).current_dir, cursor_index: old(state).cursor_index },
        ),
        final(state).current_dir == new_dir,
        stable_sorted(with_parent_entry(entry_views(new_entries@), new_dir), entry_views(final(state).entries@)),
        final(state).cursor_index == 0,
        final(state).scroll_offset == 0,
        final(state).root_dir == old(state).root_dir,
        final(state).show_hidden == old(state).show_hidden,
{
    state.navigation_history.push(
        NavigationEntry { dir: state.current_dir.clone(), cursor_index: state.cursor_index },
    );
    let mut new_entries = new_entries;
    add_parent_entry(&mut new_entries, &new_dir);
    sort_entries(&mut new_entries);
    state.current_dir = new_dir;
    state.entries = new_entries;
    state.cursor_index = 0;
    state.scroll_offset = 0;
}

/// Goes to the parent directory: the last history entry is popped and its
/// cursor restored (0 when the history is empty), clamped to the new listing.
pub fn go_to_parent(state: &mut BrowserState, parent_dir: PathBuf, parent_entries: Vec<DirEntry>)
    ensures
        ({
            let h = old(state).navigation_history@;
            let restored: int = if h.len() > 0 { h.last().cursor_index as int } else { 0 };
            let n = final(state).entries@.len() as int;
            let last: int = if n > 0 { n - 1 } else { 0 };
            &&& final(state).navigation_history@ == (if h.len() > 0 { h.drop_last() } else { h })
            &&& final(state).cursor_index == (if restored < last { restored } else { last })
        }),
        final(state).current_dir == parent_dir,
        stable_sorted(with_parent_entry(entry_views(parent_entries@), parent_dir), entry_views(final(state).entries@)),
        final(state).scroll_offset == 0,
        final(state).root_dir == old(state).root_dir,
        final(state).show_hidden == old(state).show_hidden,
{
    let restored_cursor = match state.navigation_history.pop() {
        Some(entry) => entry.cursor_index,
        None => 0,
    };
    let mut parent_entries = parent_entries;
    add_parent_entry(&mut parent_entries, &parent_dir);
    sort_entries(&mut parent_entries);
    let n = parent_entries.len();
    let last = if n > 0 {
        n - 1
    } else {
        0
    };
    let cursor = if restored_cursor < last {
        restored_cursor
    } else {
        last
    };
    state.current_dir = parent_dir;
    state.entries = parent_entries;
    state.cursor_index = cursor;
    state.scroll_offset = 0;
}

/// Returns the entries in the window of `visible_height` rows from the scroll offset.
pub fn visible_entries(state: &BrowserState, visible_height: usize) -> (r: &[DirEntry])
    requires
        state.scroll_offset + visible_height <= usize::MAX,
        state.scroll_offset <= state.entries@.len(),
    ensures
        r@ == state.entries@.subrange(
            state.scroll_offset as int,
            if state.scroll_offset + visible_height < state.entries@.len() {
                state.scroll_offset + visible_height
            } else {
                state.entries@.len() as int
            },
        ),
{
    let start = state.scroll_offset;
    let end = if start + visible_height < state.entries.len() {
        start + visible_height
    } else {
        state.entries.len()
    };
    vstd::slice::slice_subrange(state.entries.as_slice(), start, end)
}

/// Returns the current directory relative to the root directory as text (the
/// whole current directory when it is not under the root).
pub fn display_path(state: &BrowserState) -> (s: String)
    ensures
        s@ == path_text(
            match path_strip_prefix(state.current_dir, state.root_dir) {
                Some(p) => p,
                None => state.current_dir,
            },
        ),
{
    match strip_prefix_of(&state.current_dir, &state.root_dir) {
        Some(p) => text_of(&p),
        None => text_of(&state.current_dir),
    }
}
} // verus!
