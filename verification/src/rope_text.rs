//! The calls into `ropey` that the buffer makes, each with the contract that
//! ropey's documentation and source give it.
//!
//! A rope is described by the chars it holds (`rope_chars`).
use crate::lines::{line_count, line_len, line_start};
use ropey::Rope;
use vstd::prelude::*;

verus! {

#[verifier::external_type_specification]
#[verifier::external_body]
pub struct ExRope(Rope);

/// The chars that a rope holds, in order.
pub uninterp spec fn rope_chars(r: Rope) -> Seq<char>;

/// `Rope::from_str`: a rope holding exactly the chars of `text`.
#[verifier::external_body]
pub fn rope_from_str(text: &str) -> (r: Rope)
    ensures
        rope_chars(r) == text@,
{
    Rope::from_str(text)
}

/// `Rope::clone`: the clone shares the source rope's tree, so it holds the same chars.
pub assume_specification[ <Rope as Clone>::clone ](r: &Rope) -> (c: Rope)
    ensures
        rope_chars(c) == rope_chars(*r),
;

/// `Rope::len_chars`: the number of chars.
#[verifier::external_body]
pub fn rope_len_chars(r: &Rope) -> (n: usize)
    ensures
        n == rope_chars(*r).len(),
{
    r.len_chars()
}

/// `Rope::len_lines`: the number of line breaks plus one.
#[verifier::external_body]
pub fn rope_len_lines(r: &Rope) -> (n: usize)
    ensures
        n == line_count(rope_chars(*r)),
{
    r.len_lines()
}

/// `Rope::line_to_char`: the char index where a line starts; one past the last
/// line gives the length of the text. Panics beyond that.
#[verifier::external_body]
pub fn rope_line_to_char(r: &Rope, line: usize) -> (idx: usize)
    requires
        line <= line_count(rope_chars(*r)),
    ensures
        idx == line_start(rope_chars(*r), line as int),
{
    r.line_to_char(line)
}

/// `Rope::line(..).len_chars()`: the number of chars of a line, its break included.
#[verifier::external_body]
pub fn rope_line_len_chars(r: &Rope, line: usize) -> (n: usize)
    requires
        line < line_count(rope_chars(*r)),
    ensures
        n == line_len(rope_chars(*r), line as int),
{
    r.line(line).len_chars()
}

/// `Rope::char`: the char at an index. Panics out of bounds.
#[verifier::external_body]
pub fn rope_char(r: &Rope, idx: usize) -> (c: char)
    requires
        idx < rope_chars(*r).len(),
    ensures
        c == rope_chars(*r)[idx as int],
{
    r.char(idx)
}

/// `Rope::insert`: puts `text` at char index `idx`. Panics if `idx` is past the end.
#[verifier::external_body]
pub fn rope_insert(r: &mut Rope, idx: usize, text: &str)
    requires
        idx <= rope_chars(*old(r)).len(),
    ensures
        rope_chars(*final(r)) == rope_chars(*old(r)).subrange(0, idx as int) + text@
            + rope_chars(*old(r)).subrange(idx as int, rope_chars(*old(r)).len() as int),
{
    r.insert(idx, text)
}

/// `Rope::remove`: takes out the chars in `start..end`. Panics unless
/// `start <= end <= len`.
#[verifier::external_body]
pub fn rope_remove(r: &mut Rope, start: usize, end: usize)
    requires
        start <= end <= rope_chars(*old(r)).len(),
    ensures
        rope_chars(*final(r)) == rope_chars(*old(r)).subrange(0, start as int) + rope_chars(
            *old(r),
        ).subrange(end as int, rope_chars(*old(r)).len() as int),
{
    r.remove(start..end)
}

/// `Rope::to_string`: all the chars as a `String`.
#[verifier::external_body]
pub fn rope_to_string(r: &Rope) -> (s: String)
    ensures
        s@ == rope_chars(*r),
{
    r.to_string()
}

/// `Rope::slice(start..end).to_string()`: the chars in `start..end`. Panics
/// unless `start <= end <= len`.
#[verifier::external_body]
pub fn rope_slice_to_string(r: &Rope, start: usize, end: usize) -> (s: String)
    requires
        start <= end <= rope_chars(*r).len(),
    ensures
        s@ == rope_chars(*r).subrange(start as int, end as int),
{
    r.slice(start..end).to_string()
}

} // verus!
