//! The logic of the Lisp primitives around files: where `save-buffer`
//! saves and what a save leaves, what `open-file` does to the editor, path
//! joining and parents, and the order of a directory listing.
use crate::browser::{chars_lt, is_permutation, lemma_seq_lt_total, lemma_seq_lt_trans, seq_lt};
use crate::bridge::{cat2, extract_string_arg, extract_string_arg_at, first_string, string_at, Arg, ArgKind, Reply};
use crate::buffer::{self, same_origin, Buffer};
use crate::cursor::Cursor;
use crate::editor_state::{EditorState, LineStyle};
use crate::error::{error_text, AlfredError};
use crate::lisp_editor::{answers_nil, fails_with};
use crate::paths::{join_name, parent_of, path_join, path_parent, path_text, text_of};
use crate::text::{str_eq, str_to_chars, to_string};
use std::collections::HashMap;
use std::path::PathBuf;
use vstd::prelude::*;

verus! {

/// What `PathBuf::from` makes of a text.
pub uninterp spec fn path_from_text(s: Seq<char>) -> PathBuf;

/// `PathBuf::from`: the path a text names.
#[verifier::external_body]
pub fn path_of(s: &str) -> (p: PathBuf)
    ensures
        p == path_from_text(s@),
{
    PathBuf::from(s)
}

/// Where `(save-buffer [path])` saves: the path given, else the buffer's own
/// file path; the error message when there is neither or the argument is no
/// string.
pub open spec fn save_target_of<T>(b: &Buffer, args: Seq<Arg<T>>) -> Result<PathBuf, Seq<char>> {
    if args.len() > 0 {
        match args[0].kind {
            ArgKind::Str(s) => Ok(path_from_text(s@)),
            _ => Err("save-buffer: expected string path argument, got "@ + args[0].shown@),
        }
    } else {
        match b.spec_file_path() {
            Some(p) => Ok(p),
            None => Err("save-buffer: buffer has no file path; provide a path argument"@),
        }
    }
}

/// The path `(save-buffer [path])` saves to, or the error message.
pub fn save_target<T>(state: &EditorState, args: &Vec<Arg<T>>) -> (r: Result<PathBuf, String>)
    ensures
        match save_target_of(&state.buffer, args@) {
            Ok(p) => r == Ok::<PathBuf, String>(p),
            Err(m) => r matches Err(e) && e@ == m,
        },
{
    if args.len() > 0 {
        match &args[0].kind {
            ArgKind::Str(s) => Ok(path_of(s.as_str())),
            _ => Err(cat2("save-buffer: expected string path argument, got ", args[0].shown.as_str())),
        }
    } else {
        match state.buffer.file_path() {
            Some(p) => Ok(p.clone()),
            None => Err(to_string("save-buffer: buffer has no file path; provide a path argument")),
        }
    }
}

/// What a save's outcome leaves: on success the buffer is marked as saved;
/// on failure the error's text is the message.
pub fn finish_save<T>(state: &mut EditorState, outcome: Result<(), AlfredError>) -> (r: Result<Reply<T>, String>)
    ensures
        match outcome {
            Ok(_) => {
                &&& answers_nil(r)
                &&& same_origin(&old(state).buffer, &final(state).buffer)
                &&& final(state).buffer@ == old(state).buffer@
                &&& !final(state).buffer.spec_modified()
                &&& final(state).buffer.spec_version() == old(state).buffer.spec_version()
                &&& *final(state) == (EditorState { buffer: final(state).buffer, ..*old(state) })
            },
            Err(e) => fails_with(r, "save-buffer: "@ + error_text(e)) && *final(state) == *old(state),
        },
{
    match outcome {
        Ok(_) => {
            state.buffer = buffer::mark_saved(&state.buffer);
            Ok(Reply::Nil)
        },
        Err(e) => Err(cat2("save-buffer: ", e.message().as_str())),
    }
}

/// What `(open-file path)` does once the file was read (or not): a new
/// buffer replaces the old one, the line styles are cleared, the cursor and
/// the viewport go to the top, the mode is normal with its keymap, and the
/// message is the file's name (the path given, when the buffer has none); a
/// read error's text becomes the message.
pub fn finish_open<T>(state: &mut EditorState, path_str: &str, outcome: Result<Buffer, AlfredError>) -> (r: Result<
    Reply<T>,
    String,
>)
    ensures
        answers_nil(r),
        match outcome {
            Ok(b) => {
                &&& final(state).buffer == b
                &&& final(state).line_styles@ == Map::<usize, Vec<LineStyle>>::empty()
                &&& final(state).cursor == (Cursor { line: 0, column: 0 })
                &&& final(state).viewport == (crate::viewport::Viewport { top_line: 0, ..old(state).viewport })
                &&& final(state).mode@ == "normal"@
                &&& final(state).active_keymaps@.len() == 1
                &&& final(state).active_keymaps@[0]@ == "normal-mode"@
                &&& final(state).message matches Some(m) && m@ == (match b.spec_filename() {
                    Some(f) => f@,
                    None => path_str@,
                })
                &&& final(state).keymaps == old(state).keymaps
                &&& final(state).running == old(state).running
            },
            Err(e) => {
                &&& *final(state) == (EditorState { message: final(state).message, ..*old(state) })
                &&& final(state).message matches Some(m) && m@ == error_text(e)
            },
        },
{
    match outcome {
        Ok(new_buffer) => {
            let filename = match new_buffer.filename() {
                Some(f) => to_string(f),
                None => to_string(path_str),
            };
            state.buffer = new_buffer;
            state.line_styles.clear();
            state.cursor = Cursor { line: 0, column: 0 };
            state.viewport.top_line = 0;
            state.mode = to_string("normal");
            state.active_keymaps = vec![to_string("normal-mode")];
            state.message = Some(filename);
            Ok(Reply::Nil)
        },
        Err(e) => {
            state.message = Some(e.message());
            Ok(Reply::Nil)
        },
    }
}

/// `(path-join base child)`: the base path with the child appended, as text.
pub fn path_join_prim<T>(args: &Vec<Arg<T>>) -> (r: Result<Reply<T>, String>)
    ensures
        match string_at(args@, 0, "path-join"@, "base"@) {
            Err(m) => fails_with(r, m),
            Ok(base) => match string_at(args@, 1, "path-join"@, "child"@) {
                Err(m) => fails_with(r, m),
                Ok(child) => r matches Ok(Reply::Str(s)) && s@ == path_text(path_join(path_from_text(base), child)),
            },
        },
{
    let base = match extract_string_arg_at(args, 0, "path-join", "base") {
        Ok(t) => t,
        Err(e) => return Err(e),
    };
    let child = match extract_string_arg_at(args, 1, "path-join", "child") {
        Ok(t) => t,
        Err(e) => return Err(e),
    };
    let joined = join_name(&path_of(base.as_str()), child.as_str());
    Ok(Reply::Str(text_of(&joined)))
}

/// `(path-parent path)`: the path without its last component, as text; empty
/// when it has no parent.
pub fn path_parent_prim<T>(args: &Vec<Arg<T>>) -> (r: Result<Reply<T>, String>)
    ensures
        match first_string(args@, "path-parent"@) {
            Err(m) => fails_with(r, m),
            Ok(p) => r matches Ok(Reply::Str(s)) && s@ == (match path_parent(path_from_text(p)) {
                Some(q) => path_text(q),
                None => Seq::<char>::empty(),
            }),
        },
{
    let text = match extract_string_arg(args, "path-parent") {
        Ok(t) => t,
        Err(e) => return Err(e),
    };
    match parent_of(&path_of(text.as_str())) {
        Some(q) => Ok(Reply::Str(text_of(&q))),
        None => Ok(Reply::Str(String::new())),
    }
}


/// A directory listing entry: a name and a type label ("dir", "file" or
/// "symlink"), taken by their chars.
pub open spec fn entry_pair_views(v: Seq<(String, String)>) -> Seq<(Seq<char>, Seq<char>)> {
    v.map_values(|e: (String, String)| (e.0@, e.1@))
}

/// `dst` holds the entries of `src` sorted by name, entries of equal names
/// keeping their order.
pub open spec fn name_sorted(src: Seq<(Seq<char>, Seq<char>)>, dst: Seq<(Seq<char>, Seq<char>)>) -> bool {
    exists|idx: Seq<int>|
        {
            &&& is_permutation(idx, src.len() as int)
            &&& dst.len() == src.len()
            &&& forall|k: int| 0 <= k < dst.len() ==> #[trigger] dst[k] == src[idx[k]]
            &&& forall|k: int, l: int|
                0 <= k < l < dst.len() ==> !seq_lt(#[trigger] dst[l].0, #[trigger] dst[k].0) && (!seq_lt(
                    dst[k].0,
                    dst[l].0,
                ) ==> idx[k] < idx[l])
        }
}

/// Whether a listing entry is a directory.
pub open spec fn is_dir_entry(e: (Seq<char>, Seq<char>)) -> bool {
    e.1 == "dir"@
}

/// The order of `list-dir`: the directories sorted by name, then the other
/// entries sorted by name.
pub open spec fn listing_ordered(src: Seq<(Seq<char>, Seq<char>)>, dst: Seq<(Seq<char>, Seq<char>)>) -> bool {
    exists|dirs: Seq<(Seq<char>, Seq<char>)>, others: Seq<(Seq<char>, Seq<char>)>|
        {
            &&& name_sorted(src.filter(|e: (Seq<char>, Seq<char>)| is_dir_entry(e)), dirs)
            &&& name_sorted(src.filter(|e: (Seq<char>, Seq<char>)| !is_dir_entry(e)), others)
            &&& dst == dirs + others
        }
}

/// Sorts listing entries by name (stable).
fn sort_by_name(v: Vec<(String, String)>) -> (r: Vec<(String, String)>)
    ensures
        name_sorted(entry_pair_views(v@), entry_pair_views(r@)),
{
    let ghost src = entry_pair_views(v@);
    let mut rest = v;
    let ghost all = rest@;
    let n = rest.len();
    let mut out: Vec<(String, String)> = Vec::new();
    let mut names: Vec<Vec<char>> = Vec::new();
    let ghost mut idx: Seq<int> = Seq::empty();
    let mut j: usize = 0;
    while rest.len() > 0
        invariant
            src == entry_pair_views(all),
            n == all.len(),
            j + rest@.len() == n,
            rest@ == all.subrange(j as int, n as int),
            out@.len() == j,
            names@.len() == j,
            forall|k: int| 0 <= k < j ==> (#[trigger] names@[k])@ == out@[k].0@,
            idx.len() == j,
            forall|k: int| 0 <= k < j ==> 0 <= #[trigger] idx[k] < j,
            forall|k: int, l: int| 0 <= k < l < j ==> #[trigger] idx[k] != #[trigger] idx[l],
            forall|k: int| 0 <= k < j ==> (#[trigger] out@[k].0@, out@[k].1@) == src[idx[k]],
            forall|k: int, l: int|
                0 <= k < l < j ==> !seq_lt(#[trigger] out@[l].0@, #[trigger] out@[k].0@) && (!seq_lt(
                    out@[k].0@,
                    out@[l].0@,
                ) ==> idx[k] < idx[l]),
        decreases rest@.len(),
    {
        let e = rest.remove(0);
        let key = str_to_chars(e.0.as_str());
        let mut at = out.len();
        while at > 0 && chars_lt(&key, &names[at - 1])
            invariant
                at <= out@.len(),
                names@.len() == out@.len(),
                key@ == e.0@,
                forall|k: int| 0 <= k < out@.len() ==> (#[trigger] names@[k])@ == out@[k].0@,
                forall|k: int| at <= k < out@.len() ==> seq_lt(e.0@, #[trigger] out@[k].0@),
            decreases at,
        {
            at = at - 1;
        }
        let ghost o0 = out@;
        let ghost i0 = idx;
        proof {
            assert((e.0@, e.1@) == src[j as int]) by {
                assert(all[j as int] == e);
            }
            if at > 0 {
                assert(!seq_lt(e.0@, o0[at - 1].0@));
            }
        }
        out.insert(at, e);
        names.insert(at, key);
        proof {
            idx = i0.insert(at as int, j as int);
            assert(rest@ =~= all.subrange(j + 1, n as int));
            assert forall|k: int, l: int| 0 <= k < l < j + 1 implies !seq_lt(
                #[trigger] out@[l].0@,
                #[trigger] out@[k].0@,
            ) && (!seq_lt(out@[k].0@, out@[l].0@) ==> idx[k] < idx[l]) by {
                if l < at {
                    assert(out@[k] == o0[k] && out@[l] == o0[l]);
                } else if l == at {
                    assert(out@[k] == o0[k]);
                    lemma_seq_lt_total(o0[k].0@, out@[l].0@);
                    lemma_seq_lt_total(o0[at - 1].0@, out@[l].0@);
                    if k < at - 1 {
                        lemma_seq_lt_total(o0[k].0@, o0[at - 1].0@);
                        if seq_lt(out@[l].0@, o0[k].0@) {
                            if seq_lt(o0[k].0@, o0[at - 1].0@) {
                                lemma_seq_lt_trans(out@[l].0@, o0[k].0@, o0[at - 1].0@);
                            }
                        }
                    }
                } else if k == at {
                    assert(out@[l] == o0[l - 1]);
                    lemma_seq_lt_total(out@[k].0@, out@[l].0@);
                } else if k < at {
                    assert(out@[k] == o0[k]);
                    assert(out@[l] == o0[l - 1]);
                } else {
                    assert(out@[k] == o0[k - 1]);
                    assert(out@[l] == o0[l - 1]);
                }
            }
        }
        j = j + 1;
    }
    proof {
        assert(is_permutation(idx, n as int));
        assert(entry_pair_views(out@).len() == src.len());
        assert forall|k: int| 0 <= k < src.len() implies #[trigger] entry_pair_views(out@)[k] == src[idx[k]] by {}
        assert forall|k: int, l: int| 0 <= k < l < src.len() implies !seq_lt(
            #[trigger] entry_pair_views(out@)[l].0,
            #[trigger] entry_pair_views(out@)[k].0,
        ) && (!seq_lt(entry_pair_views(out@)[k].0, entry_pair_views(out@)[l].0) ==> idx[k] < idx[l]) by {
            assert(entry_pair_views(out@)[k] == (out@[k].0@, out@[k].1@));
            assert(entry_pair_views(out@)[l] == (out@[l].0@, out@[l].1@));
        }
    }
    out
}

/// Orders the entries of a directory listing as `list-dir` gives them: the
/// directories by name, then the other entries by name.
pub fn order_listing(entries: Vec<(String, String)>) -> (r: Vec<(String, String)>)
    ensures
        listing_ordered(entry_pair_views(entries@), entry_pair_views(r@)),
{
    let ghost src = entry_pair_views(entries@);
    let ghost isdir = |e: (Seq<char>, Seq<char>)| is_dir_entry(e);
    let ghost notdir = |e: (Seq<char>, Seq<char>)| !is_dir_entry(e);
    let mut rest = entries;
    let ghost all = rest@;
    let n = rest.len();
    let mut dirs: Vec<(String, String)> = Vec::new();
    let mut others: Vec<(String, String)> = Vec::new();
    let mut j: usize = 0;
    proof {
        assert(src.subrange(0, 0) =~= Seq::<(Seq<char>, Seq<char>)>::empty());
        assert(entry_pair_views(dirs@) =~= src.subrange(0, 0).filter(isdir));
        assert(entry_pair_views(others@) =~= src.subrange(0, 0).filter(notdir));
    }
    while rest.len() > 0
        invariant
            src == entry_pair_views(all),
            n == all.len(),
            j + rest@.len() == n,
            rest@ == all.subrange(j as int, n as int),
            isdir == (|e: (Seq<char>, Seq<char>)| is_dir_entry(e)),
            notdir == (|e: (Seq<char>, Seq<char>)| !is_dir_entry(e)),
            entry_pair_views(dirs@) == src.subrange(0, j as int).filter(isdir),
            entry_pair_views(others@) == src.subrange(0, j as int).filter(notdir),
        decreases rest@.len(),
    {
        let e = rest.remove(0);
        let ghost ev = (e.0@, e.1@);
        proof {
            assert(all[j as int] == e);
            assert(src[j as int] == ev);
            assert(rest@ =~= all.subrange(j + 1, n as int));
            assert(src.subrange(0, j + 1).drop_last() =~= src.subrange(0, j as int));
            reveal_with_fuel(Seq::filter, 1);
        }
        let ghost d0 = entry_pair_views(dirs@);
        let ghost o0 = entry_pair_views(others@);
        if str_eq(e.1.as_str(), "dir") {
            dirs.push(e);
            proof {
                assert(entry_pair_views(dirs@) =~= d0.push(ev));
                assert(src.subrange(0, j + 1).filter(isdir) =~= d0.push(ev));
                assert(src.subrange(0, j + 1).filter(notdir) =~= o0);
            }
        } else {
            others.push(e);
            proof {
                assert(entry_pair_views(others@) =~= o0.push(ev));
                assert(src.subrange(0, j + 1).filter(notdir) =~= o0.push(ev));
                assert(src.subrange(0, j + 1).filter(isdir) =~= d0);
            }
        }
        j = j + 1;
    }
    proof {
        assert(src.subrange(0, n as int) =~= src);
    }
    let ghost dv = entry_pair_views(dirs@);
    let ghost ov = entry_pair_views(others@);
    let mut sorted_dirs = sort_by_name(dirs);
    let mut sorted_others = sort_by_name(others);
    let ghost sd = entry_pair_views(sorted_dirs@);
    let ghost so = entry_pair_views(sorted_others@);
    sorted_dirs.append(&mut sorted_others);
    proof {
        assert(entry_pair_views(sorted_dirs@) =~= sd + so);
    }
    sorted_dirs
}
} // verus!
