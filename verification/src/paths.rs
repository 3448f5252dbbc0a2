//! Filesystem paths as values: the path type and the few path operations the
//! editor's logic asks of std.
use std::path::PathBuf;
use vstd::prelude::*;

verus! {

#[verifier::external_type_specification]
#[verifier::external_body]
pub struct ExPathBuf(PathBuf);

/// `PathBuf::clone`: a path equal to the one cloned.
pub assume_specification[ <PathBuf as Clone>::clone ](p: &PathBuf) -> (q: PathBuf)
    ensures
        q == *p,
;

/// Clones an optional path.
pub fn clone_opt_path(p: &Option<PathBuf>) -> (q: Option<PathBuf>)
    ensures
        q == *p,
{
    match p {
        Some(x) => Some(x.clone()),
        None => None,
    }
}

/// Clones an optional string.
pub fn clone_opt_string(s: &Option<String>) -> (t: Option<String>)
    ensures
        t == *s,
{
    match s {
        Some(x) => Some(x.clone()),
        None => None,
    }
}


/// What `Path::parent` returns for a path (as an owned path).
pub uninterp spec fn path_parent(p: PathBuf) -> Option<PathBuf>;

/// What `Path::join` returns for a path and a name.
pub uninterp spec fn path_join(p: PathBuf, name: Seq<char>) -> PathBuf;

/// What `Path::strip_prefix` returns for a path and a base (as an owned path),
/// `None` where it returns an error.
pub uninterp spec fn path_strip_prefix(p: PathBuf, base: PathBuf) -> Option<PathBuf>;

/// What `Path::to_string_lossy` gives for a path, as chars.
pub uninterp spec fn path_text(p: PathBuf) -> Seq<char>;

/// `Path::parent`: the path without its last component, `None` for a root or
/// an empty path.
#[verifier::external_body]
pub fn parent_of(p: &PathBuf) -> (r: Option<PathBuf>)
    ensures
        r == path_parent(*p),
{
    match p.parent() {
        Some(q) => Some(q.to_path_buf()),
        None => None,
    }
}

/// `Path::join`: the path with `name` appended.
#[verifier::external_body]
pub fn join_name(p: &PathBuf, name: &str) -> (r: PathBuf)
    ensures
        r == path_join(*p, name@),
{
    p.join(name)
}

/// `Path::strip_prefix`: the path relative to `base`, `None` when `base` is not
/// a prefix of it.
#[verifier::external_body]
pub fn strip_prefix_of(p: &PathBuf, base: &PathBuf) -> (r: Option<PathBuf>)
    ensures
        r == path_strip_prefix(*p, *base),
{
    match p.strip_prefix(base) {
        Ok(q) => Some(q.to_path_buf()),
        Err(_) => None,
    }
}

/// `Path::to_string_lossy`: the path as text.
#[verifier::external_body]
pub fn text_of(p: &PathBuf) -> (r: String)
    ensures
        r@ == path_text(*p),
{
    p.to_string_lossy().to_string()
}
} // verus!
