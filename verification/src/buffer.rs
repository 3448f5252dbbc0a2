//! Buffer: an immutable text container over a `ropey::Rope`, with metadata.
//!
//! Every edit returns a new `Buffer`; the text of the result is stated over the
//! text of the input (`b@`, the chars held), and each edit keeps the id and the
//! file names, marks the result modified and bumps its version by one.
use crate::lines::{
    byte_len, last_line, lemma_line_bounds, lemma_line_has_one_break, lemma_line_starts_glue, lemma_lf_only_parts,
    lemma_single_line, lemma_trim_newlines_at, lf_only, is_break_char, line_starts, shifted, lemma_line_count_positive, lemma_line_range, lemma_trim_newlines, line_end, line_len,
    line_start, line_text, trim_newlines,
};
use crate::paths::{clone_opt_path, clone_opt_string};
use crate::rope_text::{
    rope_char, rope_chars, rope_from_str, rope_insert, rope_len_chars, rope_len_lines,
    rope_line_len_chars, rope_line_to_char, rope_remove,
    rope_slice_to_string, rope_to_string,
};
use crate::text::{chars_to_string, str_to_chars, string_push, string_push_str};
use ropey::Rope;
use std::collections::hash_map::RandomState;
use std::hash::BuildHasher;
use std::path::PathBuf;
use vstd::prelude::*;

verus! {

/// `RandomState::new`: a hasher state with fresh random keys.
#[verifier::external_body]
fn fresh_random_state() -> RandomState {
    RandomState::new()
}

/// `BuildHasher::hash_one` of the value 0 under the given keys.
#[verifier::external_body]
fn hash_of_zero(state: &RandomState) -> u64 {
    state.hash_one(0u64)
}

/// A positive identifier drawn from fresh random keys.
fn next_id() -> (id: u64)
    ensures
        id > 0,
{
    let h = hash_of_zero(&fresh_random_state());
    if h == 0 {
        1
    } else {
        h
    }
}

/// Immutable text buffer wrapping a rope with editor metadata: a positive id,
/// the file's name and full path when loaded from a file, a modified flag and
/// a version counter.
#[derive(Debug, Clone)]
pub struct Buffer {
    id: u64,
    rope: Rope,
    filename: Option<String>,
    file_path: Option<PathBuf>,
    modified: bool,
    version: u64,
}

impl View for Buffer {
    type V = Seq<char>;

    /// The chars held by the buffer.
    closed spec fn view(&self) -> Seq<char> {
        rope_chars(self.rope)
    }
}

impl Buffer {
    pub closed spec fn spec_id(&self) -> u64 {
        self.id
    }

    pub closed spec fn spec_filename(&self) -> Option<String> {
        self.filename
    }

    pub closed spec fn spec_file_path(&self) -> Option<PathBuf> {
        self.file_path
    }

    pub closed spec fn spec_modified(&self) -> bool {
        self.modified
    }

    pub closed spec fn spec_version(&self) -> u64 {
        self.version
    }


    /// Creates a buffer holding `text`: no file names, not modified, version 1.
    pub fn from_string(text: &str) -> (b: Buffer)
        ensures
            b@ == text@,
            b.spec_id() > 0,
            b.spec_filename() is None,
            b.spec_file_path() is None,
            !b.spec_modified(),
            b.spec_version() == 1,
    {
        Buffer {
            id: next_id(),
            rope: rope_from_str(text),
            filename: None,
            file_path: None,
            modified: false,
            version: 1,
        }
    }

    /// Creates a buffer for text read from the file at `path` whose name is `filename`:
    /// not modified, version 1.
    pub fn from_file_text(path: PathBuf, filename: Option<String>, text: &str) -> (b: Buffer)
        ensures
            b@ == text@,
            b.spec_id() > 0,
            b.spec_filename() == filename,
            b.spec_file_path() == Some(path),
            !b.spec_modified(),
            b.spec_version() == 1,
    {
        Buffer {
            id: next_id(),
            rope: rope_from_str(text),
            filename,
            file_path: Some(path),
            modified: false,
            version: 1,
        }
    }

    /// Returns the unique identifier for this buffer.
    pub fn id(&self) -> (r: u64)
        ensures
            r == self.spec_id(),
    {
        self.id
    }

    /// Returns the filename (just the name component), or None if unnamed.
    pub fn filename(&self) -> (r: Option<&str>)
        ensures
            match self.spec_filename() {
                Some(f) => r matches Some(s) && s@ == f@,
                None => r is None,
            },
    {
        match &self.filename {
            Some(f) => Some(f.as_str()),
            None => None,
        }
    }

    /// Returns the full file path, or None if the buffer was not loaded from a file.
    pub fn file_path(&self) -> (r: Option<&PathBuf>)
        ensures
            match self.spec_file_path() {
                Some(p) => r == Some(&p),
                None => r is None,
            },
    {
        match &self.file_path {
            Some(p) => Some(p),
            None => None,
        }
    }

    /// Returns whether the buffer has been modified since loading.
    pub fn is_modified(&self) -> (r: bool)
        ensures
            r == self.spec_modified(),
    {
        self.modified
    }

    /// Returns the current version of this buffer.
    pub fn version(&self) -> (r: u64)
        ensures
            r == self.spec_version(),
    {
        self.version
    }
}

/// `b` and `r` carry the same id and file names.
pub open spec fn same_origin(b: &Buffer, r: &Buffer) -> bool {
    &&& r.spec_id() == b.spec_id()
    &&& r.spec_filename() == b.spec_filename()
    &&& r.spec_file_path() == b.spec_file_path()
}

/// `r` is `b` after one edit: same origin, modified, next version.
pub open spec fn edited_from(b: &Buffer, r: &Buffer) -> bool {
    &&& same_origin(b, r)
    &&& r.spec_modified()
    &&& r.spec_version() == b.spec_version() + 1
}

/// `r` is `b` returned unchanged.
pub open spec fn unchanged_from(b: &Buffer, r: &Buffer) -> bool {
    &&& same_origin(b, r)
    &&& r@ == b@
    &&& r.spec_modified() == b.spec_modified()
    &&& r.spec_version() == b.spec_version()
}

/// Line `i` with its break, as `get_line` gives it: present when in bounds.
pub open spec fn line_at(b: &Buffer, i: int) -> Option<Seq<char>> {
    if 0 <= i < crate::lines::line_count(b@) {
        Some(line_text(b@, i))
    } else {
        None
    }
}

/// The line's content as the editor sees it: the line without trailing
/// newlines, or nothing out of bounds.
pub open spec fn line_content(b: &Buffer, i: int) -> Seq<char> {
    match line_at(b, i) {
        Some(t) => trim_newlines(t),
        None => Seq::empty(),
    }
}

/// `s` with the chars in `start..end` replaced by `ins`.
pub open spec fn splice(s: Seq<char>, start: int, end: int, ins: Seq<char>) -> Seq<char> {
    s.subrange(0, start) + ins + s.subrange(end, s.len() as int)
}

/// The char index of a (line, column) position, the line clamped to the last
/// line and the column to that line's length (its break included).
pub open spec fn char_index(s: Seq<char>, line: int, column: int) -> int {
    let l = if line < last_line(s) {
        line
    } else {
        last_line(s)
    };
    let len = line_len(s, l);
    line_start(s, l) + if column < len {
        column
    } else {
        len
    }
}

proof fn lemma_char_index_bounds(s: Seq<char>, line: int, column: int)
    requires
        0 <= line,
        0 <= column,
    ensures
        0 <= char_index(s, line, column) <= s.len(),
{
    lemma_line_count_positive(s);
    let l = if line < last_line(s) {
        line
    } else {
        last_line(s)
    };
    lemma_line_range(s, l);
}

/// Same buffer, its rope shared.
fn duplicate(b: &Buffer) -> (r: Buffer)
    ensures
        unchanged_from(b, &r),
{
    Buffer {
        id: b.id,
        rope: b.rope.clone(),
        filename: clone_opt_string(&b.filename),
        file_path: clone_opt_path(&b.file_path),
        modified: b.modified,
        version: b.version,
    }
}

/// A buffer with the same origin as `b`, holding `rope`, modified, at the next version.
fn rebuild(b: &Buffer, rope: Rope) -> (r: Buffer)
    requires
        b.spec_version() < u64::MAX,
    ensures
        edited_from(b, &r),
        r@ == rope_chars(rope),
{
    Buffer {
        id: b.id,
        rope,
        filename: clone_opt_string(&b.filename),
        file_path: clone_opt_path(&b.file_path),
        modified: true,
        version: b.version + 1,
    }
}

/// Converts a (line, column) position to a char index, clamping both.
fn line_column_to_char_index(rope: &Rope, line: usize, column: usize) -> (idx: usize)
    ensures
        idx == char_index(rope_chars(*rope), line as int, column as int),
        idx <= rope_chars(*rope).len(),
{
    proof {
        lemma_line_count_positive(rope_chars(*rope));
        lemma_char_index_bounds(rope_chars(*rope), line as int, column as int);
    }
    let _total = rope_len_chars(rope);
    let max_line = rope_len_lines(rope) - 1;
    let clamped_line = if line < max_line {
        line
    } else {
        max_line
    };
    proof {
        lemma_line_range(rope_chars(*rope), clamped_line as int);
    }
    let line_start = rope_line_to_char(rope, clamped_line);
    let line_len = rope_line_len_chars(rope, clamped_line);
    let clamped_column = if column < line_len {
        column
    } else {
        line_len
    };
    line_start + clamped_column
}

/// Returns the number of lines in the buffer (an empty buffer has one line).
pub fn line_count(buffer: &Buffer) -> (n: usize)
    ensures
        n == crate::lines::line_count(buffer@),
{
    rope_len_lines(&buffer.rope)
}

/// Returns line `index` with its line break, or `None` when out of bounds.
pub fn get_line(buffer: &Buffer, index: usize) -> (r: Option<String>)
    ensures
        match line_at(buffer, index as int) {
            Some(t) => r matches Some(s) && s@ == t,
            None => r is None,
        },
{
    if index >= rope_len_lines(&buffer.rope) {
        return None;
    }
    proof {
        lemma_line_range(buffer@, index as int);
    }
    let _total = rope_len_chars(&buffer.rope);
    let start = rope_line_to_char(&buffer.rope, index);
    let len = rope_line_len_chars(&buffer.rope, index);
    Some(rope_slice_to_string(&buffer.rope, start, start + len))
}

/// Returns the entire buffer content as a String.
pub fn content(buffer: &Buffer) -> (s: String)
    ensures
        s@ == buffer@,
{
    rope_to_string(&buffer.rope)
}

/// Inserts `text` at the (clamped) line and column, returning a new buffer.
pub fn insert_at(buffer: &Buffer, line: usize, column: usize, text: &str) -> (r: Buffer)
    requires
        buffer.spec_version() < u64::MAX,
    ensures
        r@ == splice(
            buffer@,
            char_index(buffer@, line as int, column as int),
            char_index(buffer@, line as int, column as int),
            text@,
        ),
        edited_from(buffer, &r),
{
    let mut rope = buffer.rope.clone();
    let idx = line_column_to_char_index(&rope, line, column);
    rope_insert(&mut rope, idx, text);
    rebuild(buffer, rope)
}

/// What `delete_at(b, line, column)` returns: `b` with the char at the
/// (clamped) position removed, or `b` unchanged at the end of the buffer.
pub open spec fn deleted_at(b: &Buffer, r: &Buffer, line: int, column: int) -> bool {
    let i = char_index(b@, line, column);
    if i >= b@.len() {
        unchanged_from(b, r)
    } else {
        r@ == splice(b@, i, i + 1, Seq::empty()) && edited_from(b, r)
    }
}

/// What `delete_line(b, line)` returns: `b` without the line, or unchanged
/// out of bounds or on an empty buffer.
pub open spec fn line_deleted(b: &Buffer, r: &Buffer, line: int) -> bool {
    if line >= crate::lines::line_count(b@) || b@.len() == 0 {
        unchanged_from(b, r)
    } else {
        r@ == splice(b@, delete_line_range(b@, line).0, delete_line_range(b@, line).1, Seq::empty())
            && edited_from(b, r)
    }
}

/// Deletes the char at the (clamped) line and column, returning a new buffer;
/// at the end of the buffer the buffer is returned unchanged.
pub fn delete_at(buffer: &Buffer, line: usize, column: usize) -> (r: Buffer)
    requires
        buffer.spec_version() < u64::MAX,
    ensures
        char_index(buffer@, line as int, column as int) >= buffer@.len() ==> unchanged_from(
            buffer,
            &r,
        ),
        char_index(buffer@, line as int, column as int) < buffer@.len() ==> {
            &&& r@ == splice(
                buffer@,
                char_index(buffer@, line as int, column as int),
                char_index(buffer@, line as int, column as int) + 1,
                Seq::empty(),
            )
            &&& edited_from(buffer, &r)
        },
        deleted_at(buffer, &r, line as int, column as int),
{
    let mut rope = buffer.rope.clone();
    let idx = line_column_to_char_index(&rope, line, column);
    if idx >= rope_len_chars(&rope) {
        return duplicate(buffer);
    }
    rope_remove(&mut rope, idx, idx + 1);
    proof {
        assert(rope_chars(rope) =~= splice(buffer@, idx as int, idx + 1, Seq::empty()));
    }
    rebuild(buffer, rope)
}

/// The char range that `delete_line` removes from `s` for an in-bounds line:
/// the line with its break, or, for the last line of several, the line with the
/// char before it.
pub open spec fn delete_line_range(s: Seq<char>, line: int) -> (int, int) {
    let start = line_start(s, line);
    let end = line_end(s, line);
    if line > 0 && end == s.len() && start > 0 {
        (start - 1, end)
    } else {
        (start, end)
    }
}

/// Deletes an entire line, returning a new buffer. Out of bounds, or on an
/// empty buffer, the buffer is returned unchanged.
pub fn delete_line(buffer: &Buffer, line: usize) -> (r: Buffer)
    requires
        buffer.spec_version() < u64::MAX,
    ensures
        (line >= crate::lines::line_count(buffer@) || buffer@.len() == 0) ==> unchanged_from(
            buffer,
            &r,
        ),
        (line < crate::lines::line_count(buffer@) && buffer@.len() > 0) ==> {
            &&& r@ == splice(
                buffer@,
                delete_line_range(buffer@, line as int).0,
                delete_line_range(buffer@, line as int).1,
                Seq::empty(),
            )
            &&& edited_from(buffer, &r)
        },
        line_deleted(buffer, &r, line as int),
{
    let total_lines = rope_len_lines(&buffer.rope);
    if line >= total_lines {
        return duplicate(buffer);
    }
    proof {
        lemma_line_range(buffer@, line as int);
    }
    let mut rope = buffer.rope.clone();
    let line_start = rope_line_to_char(&rope, line);
    let line_char_count = rope_line_len_chars(&rope, line);
    let len = rope_len_chars(&rope);
    if line_char_count == 0 && len == 0 {
        return duplicate(buffer);
    }
    let end = if line_start + line_char_count <= len {
        line_start + line_char_count
    } else {
        len
    };
    let start = if line > 0 && end == len && line_start > 0 {
        line_start - 1
    } else {
        line_start
    };
    if start < end {
        rope_remove(&mut rope, start, end);
    }
    proof {
        assert(rope_chars(rope) =~= splice(buffer@, start as int, end as int, Seq::empty()));
    }
    rebuild(buffer, rope)
}

/// The same buffer, marked as not modified (what a successful save leaves).
pub fn mark_saved(buffer: &Buffer) -> (r: Buffer)
    ensures
        same_origin(buffer, &r),
        r@ == buffer@,
        !r.spec_modified(),
        r.spec_version() == buffer.spec_version(),
{
    Buffer {
        id: buffer.id,
        rope: buffer.rope.clone(),
        filename: clone_opt_string(&buffer.filename),
        file_path: clone_opt_path(&buffer.file_path),
        modified: false,
        version: buffer.version,
    }
}

/// The length of `v` once its trailing '\n' chars are dropped.
fn trimmed_len(v: &Vec<char>) -> (k: usize)
    ensures
        v@.subrange(0, k as int) == trim_newlines(v@),
        k <= v@.len(),
{
    let mut k = v.len();
    while k > 0 && v[k - 1] == '\n'
        invariant
            k <= v@.len(),
            forall|i: int| k <= i < v@.len() ==> v@[i] == '\n',
        decreases k,
    {
        k = k - 1;
    }
    proof {
        crate::lines::lemma_trim_newlines_at(v@, k as int);
    }
    k
}

/// Returns the content of a line without its trailing newline; an empty string
/// when the line is out of bounds.
pub fn get_line_content(buffer: &Buffer, line: usize) -> (s: String)
    ensures
        s@ == line_content(buffer, line as int),
{
    match get_line(buffer, line) {
        Some(text) => {
            let v = str_to_chars(text.as_str());
            let k = trimmed_len(&v);
            chars_to_string(v.as_slice(), 0, k)
        },
        None => String::new(),
    }
}

} // verus!

verus! {

/// The text after `replace_line` puts `new_text` in place of line `line`,
/// keeping the line's '\n' break if it ends with one.
pub open spec fn replace_line_text(s: Seq<char>, line: int, new_text: Seq<char>) -> Seq<char> {
    let start = line_start(s, line);
    let len = line_len(s, line);
    let keeps_newline = len > 0 && s[start + len - 1] == '\n';
    splice(s, start, start + len, if keeps_newline { new_text.push('\n') } else { new_text })
}

/// Replaces the content of a line with new text, preserving a trailing '\n'.
/// Out of bounds the buffer is returned unchanged.
pub fn replace_line(buffer: &Buffer, line: usize, new_text: &str) -> (r: Buffer)
    requires
        buffer.spec_version() < u64::MAX,
    ensures
        line >= crate::lines::line_count(buffer@) ==> unchanged_from(buffer, &r),
        line < crate::lines::line_count(buffer@) ==> {
            &&& r@ == replace_line_text(buffer@, line as int, new_text@)
            &&& edited_from(buffer, &r)
        },
{
    let total_lines = rope_len_lines(&buffer.rope);
    if line >= total_lines {
        return duplicate(buffer);
    }
    proof {
        lemma_line_range(buffer@, line as int);
    }
    let mut rope = buffer.rope.clone();
    let line_start = rope_line_to_char(&rope, line);
    let line_chars = rope_line_len_chars(&rope, line);
    let len = rope_len_chars(&rope);
    let has_newline = line_chars > 0 && {
        let last_char_idx = line_start + line_chars - 1;
        last_char_idx < len && rope_char(&rope, last_char_idx) == '\n'
    };
    rope_remove(&mut rope, line_start, line_start + line_chars);
    let v = str_to_chars(new_text);
    let mut insert_text = chars_to_string(v.as_slice(), 0, v.len());
    if has_newline {
        string_push(&mut insert_text, '\n');
    }
    proof {
        assert(rope_chars(rope) =~= buffer@.subrange(0, line_start as int) + buffer@.subrange(
            line_start + line_chars,
            buffer@.len() as int,
        ));
    }
    rope_insert(&mut rope, line_start, insert_text.as_str());
    proof {
        assert(rope_chars(rope) =~= replace_line_text(buffer@, line as int, new_text@));
    }
    rebuild(buffer, rope)
}

/// Two line contents joined: one of them alone when the other is empty,
/// otherwise separated by one space.
pub open spec fn joined_content(current: Seq<char>, next: Seq<char>) -> Seq<char> {
    if current.len() == 0 {
        next
    } else if next.len() == 0 {
        current
    } else {
        current + seq![' '] + next
    }
}

/// The text after `join_lines` merges line `line` with the next one.
pub open spec fn join_lines_text(b: &Buffer, line: int) -> Seq<char> {
    let joined = joined_content(line_content(b, line), line_content(b, line + 1));
    let ins = if line + 2 < crate::lines::line_count(b@) {
        joined.push('\n')
    } else {
        joined
    };
    splice(b@, line_start(b@, line), line_end(b@, line + 1), ins)
}

/// Joins a line with the next one, separated by a single space; the two lines
/// (and their breaks) become one line, followed by '\n' if more lines follow.
/// On the last line or out of bounds the buffer is returned unchanged.
pub fn join_lines(buffer: &Buffer, line: usize) -> (r: Buffer)
    requires
        buffer.spec_version() < u64::MAX,
    ensures
        line + 1 >= crate::lines::line_count(buffer@) ==> unchanged_from(buffer, &r),
        line + 1 < crate::lines::line_count(buffer@) ==> {
            &&& r@ == join_lines_text(buffer, line as int)
            &&& edited_from(buffer, &r)
        },
{
    let total_lines = rope_len_lines(&buffer.rope);
    if line >= total_lines || total_lines - line <= 1 {
        return duplicate(buffer);
    }
    let current_content = get_line_content(buffer, line);
    let next_content = get_line_content(buffer, line + 1);
    let mut joined = if current_content.as_str().is_empty() {
        next_content
    } else if next_content.as_str().is_empty() {
        current_content
    } else {
        let mut j = current_content;
        string_push(&mut j, ' ');
        string_push_str(&mut j, next_content.as_str());
        j
    };
    proof {
        lemma_line_range(buffer@, line as int);
        lemma_line_range(buffer@, line + 1);
        assert(line_end(buffer@, line as int) == line_start(buffer@, line + 1));
    }
    let mut rope = buffer.rope.clone();
    let line_start = rope_line_to_char(&rope, line);
    let next_line_start = rope_line_to_char(&rope, line + 1);
    let next_line_len = rope_line_len_chars(&rope, line + 1);
    let _total = rope_len_chars(&rope);
    let next_line_end_char = next_line_start + next_line_len;
    rope_remove(&mut rope, line_start, next_line_end_char);
    let has_more_lines = total_lines - line > 2;
    if has_more_lines {
        string_push(&mut joined, '\n');
    }
    proof {
        assert(rope_chars(rope) =~= buffer@.subrange(0, line_start as int) + buffer@.subrange(
            next_line_end_char as int,
            buffer@.len() as int,
        ));
    }
    rope_insert(&mut rope, line_start, joined.as_str());
    proof {
        assert(rope_chars(rope) =~= join_lines_text(buffer, line as int));
    }
    rebuild(buffer, rope)
}

/// The first `column` UTF-8 bytes of `s`, decoded.
pub open spec fn byte_prefix(s: Seq<char>, column: int) -> Seq<char> {
    vstd::utf8::decode_utf8(vstd::utf8::encode_utf8(s).subrange(0, column))
}

/// Deletes the text of a line from byte column `column` on, keeping its break.
/// Out of bounds, or when the column is at or past the end of the line's
/// content, the buffer is returned unchanged. The column must fall on a char
/// boundary of the content (slicing there would panic otherwise).
pub fn delete_to_line_end(buffer: &Buffer, line: usize, column: usize) -> (r: Buffer)
    requires
        buffer.spec_version() < u64::MAX,
        line < crate::lines::line_count(buffer@) && column < byte_len(
            line_content(buffer, line as int),
        ) ==> vstd::utf8::is_char_boundary(
            vstd::utf8::encode_utf8(line_content(buffer, line as int)),
            column as int,
        ),
    ensures
        (line >= crate::lines::line_count(buffer@) || column >= byte_len(
            line_content(buffer, line as int),
        )) ==> unchanged_from(buffer, &r),
        (line < crate::lines::line_count(buffer@) && column < byte_len(
            line_content(buffer, line as int),
        )) ==> {
            &&& r@ == replace_line_text(
                buffer@,
                line as int,
                byte_prefix(line_content(buffer, line as int), column as int),
            )
            &&& edited_from(buffer, &r)
        },
{
    let total_lines = rope_len_lines(&buffer.rope);
    if line >= total_lines {
        return duplicate(buffer);
    }
    let line_content = get_line_content(buffer, line);
    if column >= line_content.as_str().as_bytes().len() {
        return duplicate(buffer);
    }
    let (new_content, _) = line_content.as_str().split_at(column);
    proof {
        vstd::utf8::encode_utf8_decode_utf8(new_content@);
    }
    replace_line(buffer, line, new_content)
}

/// Prepends `indent_str` to a line. Out of bounds the buffer is returned unchanged.
pub fn indent_line(buffer: &Buffer, line: usize, indent_str: &str) -> (r: Buffer)
    requires
        buffer.spec_version() < u64::MAX,
    ensures
        line >= crate::lines::line_count(buffer@) ==> unchanged_from(buffer, &r),
        line < crate::lines::line_count(buffer@) ==> {
            &&& r@ == replace_line_text(
                buffer@,
                line as int,
                indent_str@ + line_content(buffer, line as int),
            )
            &&& edited_from(buffer, &r)
        },
{
    let total_lines = rope_len_lines(&buffer.rope);
    if line >= total_lines {
        return duplicate(buffer);
    }
    let line_content = get_line_content(buffer, line);
    let v = str_to_chars(indent_str);
    let mut indented = chars_to_string(v.as_slice(), 0, v.len());
    string_push_str(&mut indented, line_content.as_str());
    replace_line(buffer, line, indented.as_str())
}

/// The number of leading spaces and tabs of `s` from index `i` on, counting at
/// most up to index `width`.
pub open spec fn blank_run_end(s: Seq<char>, width: int, i: int) -> int
    decreases s.len() - i,
{
    if 0 <= i < s.len() && i < width && (s[i] == ' ' || s[i] == '\t') {
        blank_run_end(s, width, i + 1)
    } else {
        i
    }
}

/// Removes up to `indent_width` leading spaces or tabs from a line (a tab counts
/// as one). Out of bounds, or with nothing to remove, the buffer is returned unchanged.
pub fn unindent_line(buffer: &Buffer, line: usize, indent_width: usize) -> (r: Buffer)
    requires
        buffer.spec_version() < u64::MAX,
    ensures
        (line >= crate::lines::line_count(buffer@) || blank_run_end(
            line_content(buffer, line as int),
            indent_width as int,
            0,
        ) == 0) ==> unchanged_from(buffer, &r),
        (line < crate::lines::line_count(buffer@) && blank_run_end(
            line_content(buffer, line as int),
            indent_width as int,
            0,
        ) > 0) ==> {
            &&& r@ == replace_line_text(
                buffer@,
                line as int,
                line_content(buffer, line as int).subrange(
                    blank_run_end(line_content(buffer, line as int), indent_width as int, 0),
                    line_content(buffer, line as int).len() as int,
                ),
            )
            &&& edited_from(buffer, &r)
        },
{
    let total_lines = rope_len_lines(&buffer.rope);
    if line >= total_lines {
        return duplicate(buffer);
    }
    let line_content = get_line_content(buffer, line);
    let v = str_to_chars(line_content.as_str());
    let mut k: usize = 0;
    while k < v.len() && k < indent_width && (v[k] == ' ' || v[k] == '\t')
        invariant
            k <= v@.len(),
            blank_run_end(v@, indent_width as int, k as int) == blank_run_end(
                v@,
                indent_width as int,
                0,
            ),
        decreases v@.len() - k,
    {
        k = k + 1;
    }
    if k == 0 {
        return duplicate(buffer);
    }
    let unindented = chars_to_string(v.as_slice(), k, v.len());
    replace_line(buffer, line, unindented.as_str())
}

/// Deletes the chars from (from_line, from_col) up to, not including,
/// (to_line, to_col), both positions clamped. When the start is at or past the
/// end, or at the end of the buffer, the buffer is returned unchanged.
pub fn delete_char_range(
    buffer: &Buffer,
    from_line: usize,
    from_col: usize,
    to_line: usize,
    to_col: usize,
) -> (r: Buffer)
    requires
        buffer.spec_version() < u64::MAX,
    ensures
        ({
            let start = char_index(buffer@, from_line as int, from_col as int);
            let end = char_index(buffer@, to_line as int, to_col as int);
            &&& (start >= end || start >= buffer@.len()) ==> unchanged_from(buffer, &r)
            &&& (start < end && start < buffer@.len()) ==> {
                &&& r@ == splice(buffer@, start, end, Seq::empty())
                &&& edited_from(buffer, &r)
            }
        }),
{
    let mut rope = buffer.rope.clone();
    let start = line_column_to_char_index(&rope, from_line, from_col);
    let end = line_column_to_char_index(&rope, to_line, to_col);
    let len = rope_len_chars(&rope);
    if start >= end || start >= len {
        return duplicate(buffer);
    }
    let clamped_end = if end < len {
        end
    } else {
        len
    };
    rope_remove(&mut rope, start, clamped_end);
    proof {
        assert(rope_chars(rope) =~= splice(buffer@, start as int, end as int, Seq::empty()));
    }
    rebuild(buffer, rope)
}

/// The chars from (from_line, from_col) up to, not including, (to_line, to_col),
/// both positions clamped; empty when the start is at or past the end.
pub fn get_text_range(
    buffer: &Buffer,
    from_line: usize,
    from_col: usize,
    to_line: usize,
    to_col: usize,
) -> (s: String)
    ensures
        ({
            let start = char_index(buffer@, from_line as int, from_col as int);
            let end = char_index(buffer@, to_line as int, to_col as int);
            &&& (start >= end || start >= buffer@.len()) ==> s@ == Seq::<char>::empty()
            &&& (start < end && start < buffer@.len()) ==> s@ == buffer@.subrange(start, end)
        }),
{
    let start = line_column_to_char_index(&buffer.rope, from_line, from_col);
    let end = line_column_to_char_index(&buffer.rope, to_line, to_col);
    let len = rope_len_chars(&buffer.rope);
    if start >= end || start >= len {
        return String::new();
    }
    let clamped_end = if end < len {
        end
    } else {
        len
    };
    rope_slice_to_string(&buffer.rope, start, clamped_end)
}

} // verus!

verus! {

/// `pat` occurs in `hay` starting at byte `i`.
pub open spec fn matches_at(hay: Seq<u8>, pat: Seq<u8>, i: int) -> bool {
    0 <= i && i + pat.len() <= hay.len() && hay.subrange(i, i + pat.len()) == pat
}

/// The first start `i >= from` of an occurrence of `pat` that ends by `to`.
pub open spec fn first_match(hay: Seq<u8>, pat: Seq<u8>, from: int, to: int) -> Option<int>
    decreases to - from + 1,
{
    if from < 0 || from + pat.len() > to || to > hay.len() {
        None
    } else if matches_at(hay, pat, from) {
        Some(from)
    } else {
        first_match(hay, pat, from + 1, to)
    }
}

/// The last start `i` with `from <= i <= last` of an occurrence of `pat`.
pub open spec fn last_match_upto(hay: Seq<u8>, pat: Seq<u8>, from: int, last: int) -> Option<
    int,
>
    decreases last - from + 1,
{
    if last < from || from < 0 {
        None
    } else if matches_at(hay, pat, last) {
        Some(last)
    } else {
        last_match_upto(hay, pat, from, last - 1)
    }
}

/// The last start `i >= from` of an occurrence of `pat` that ends by `to`.
pub open spec fn last_match(hay: Seq<u8>, pat: Seq<u8>, from: int, to: int) -> Option<int> {
    if to > hay.len() {
        None
    } else {
        last_match_upto(hay, pat, from, to - pat.len())
    }
}

/// The UTF-8 bytes that encode `t`.
pub open spec fn utf8_bytes(t: Seq<char>) -> Seq<u8> {
    vstd::utf8::encode_utf8(t)
}

/// The smaller of two integers.
pub open spec fn min_int(a: int, b: int) -> int {
    if a < b {
        a
    } else {
        b
    }
}

/// What a scan over lines gives: `None` to go on, `Some(Some((line, byte)))`
/// on a match, and `Some(None)` when it meets a line that `line_at` does not
/// give (which a scan over lines in bounds never does).
pub type LineScan = Option<Option<(int, int)>>;

/// The forward pass of `find_forward`, from line `l` to the last line.
pub open spec fn forward_pass(b: &Buffer, pat: Seq<u8>, sl: int, sc: int, l: int) -> LineScan
    decreases crate::lines::line_count(b@) - l,
{
    if l < 0 || l >= crate::lines::line_count(b@) {
        None
    } else {
        match line_at(b, l) {
            None => Some(None),
            Some(t) => {
                let hay = utf8_bytes(t);
                let from = if l == sl {
                    min_int(sc + 1, hay.len() as int)
                } else {
                    0
                };
                match first_match(hay, pat, from, hay.len() as int) {
                    Some(i) => Some(Some((l, i))),
                    None => forward_pass(b, pat, sl, sc, l + 1),
                }
            },
        }
    }
}

/// The wrap-around pass of `find_forward`, from line `l` up to line `last`.
pub open spec fn forward_wrap(b: &Buffer, pat: Seq<u8>, sl: int, sc: int, l: int, last: int) -> LineScan
    decreases last - l + 1,
{
    if l < 0 || l > last || l >= crate::lines::line_count(b@) {
        None
    } else {
        match line_at(b, l) {
            None => Some(None),
            Some(t) => {
                let hay = utf8_bytes(t);
                let to = if l == sl {
                    min_int(sc + pat.len(), hay.len() as int)
                } else {
                    hay.len() as int
                };
                match first_match(hay, pat, 0, to) {
                    Some(i) => Some(Some((l, i))),
                    None => forward_wrap(b, pat, sl, sc, l + 1, last),
                }
            },
        }
    }
}

/// What `find_forward` returns: the first match after (sl, sc) to the end, then
/// from the start of the buffer round to the start position; `None` when the
/// pattern is empty or absent.
pub open spec fn find_forward_result(b: &Buffer, sl: int, sc: int, pat: Seq<u8>) -> Option<(int, int)> {
    if pat.len() == 0 {
        None
    } else {
        match forward_pass(b, pat, sl, sc, sl) {
            Some(r) => r,
            None => match forward_wrap(
                b,
                pat,
                sl,
                sc,
                0,
                min_int(sl, crate::lines::line_count(b@) - 1),
            ) {
                Some(r) => r,
                None => None,
            },
        }
    }
}

/// The backward pass of `find_backward`, from line `l` down to line 0.
pub open spec fn backward_pass(b: &Buffer, pat: Seq<u8>, sl: int, sc: int, l: int) -> LineScan
    decreases l + 1,
{
    if l < 0 || l >= crate::lines::line_count(b@) {
        None
    } else {
        match line_at(b, l) {
            None => Some(None),
            Some(t) => {
                let hay = utf8_bytes(t);
                let to = if l == sl {
                    min_int(sc, hay.len() as int)
                } else {
                    hay.len() as int
                };
                match last_match(hay, pat, 0, to) {
                    Some(i) => Some(Some((l, i))),
                    None => backward_pass(b, pat, sl, sc, l - 1),
                }
            },
        }
    }
}

/// The wrap-around pass of `find_backward`, from line `l` down to line `first`.
pub open spec fn backward_wrap(b: &Buffer, pat: Seq<u8>, sl: int, sc: int, l: int, first: int) -> LineScan
    decreases l - first + 1,
{
    if l < first || l < 0 || l >= crate::lines::line_count(b@) {
        None
    } else {
        match line_at(b, l) {
            None => Some(None),
            Some(t) => {
                let hay = utf8_bytes(t);
                let from = if l == sl {
                    min_int(sc + 1, hay.len() as int)
                } else {
                    0
                };
                if from < hay.len() {
                    match last_match(hay, pat, from, hay.len() as int) {
                        Some(i) => Some(Some((l, i))),
                        None => backward_wrap(b, pat, sl, sc, l - 1, first),
                    }
                } else {
                    backward_wrap(b, pat, sl, sc, l - 1, first)
                }
            },
        }
    }
}

/// What `find_backward` returns: the last match before (sl, sc) back to the
/// start, then from the end of the buffer back to the start position.
pub open spec fn find_backward_result(b: &Buffer, sl: int, sc: int, pat: Seq<u8>) -> Option<(int, int)> {
    if pat.len() == 0 {
        None
    } else {
        let first = min_int(sl, crate::lines::line_count(b@) - 1);
        match backward_pass(b, pat, sl, sc, first) {
            Some(r) => r,
            None => match backward_wrap(
                b,
                pat,
                sl,
                sc,
                crate::lines::line_count(b@) - 1,
                first,
            ) {
                Some(r) => r,
                None => None,
            },
        }
    }
}

/// Whether `pat` occurs in `hay` at `i`.
fn bytes_match_at(hay: &[u8], pat: &[u8], i: usize) -> (r: bool)
    requires
        i + pat@.len() <= hay@.len(),
    ensures
        r == matches_at(hay@, pat@, i as int),
{
    let n = hay.len();
    let mut k: usize = 0;
    while k < pat.len()
        invariant
            k <= pat@.len(),
            i + pat@.len() <= hay@.len(),
            n == hay@.len(),
            forall|j: int| 0 <= j < k ==> hay@[i + j] == pat@[j],
        decreases pat@.len() - k,
    {
        if hay[i + k] != pat[k] {
            proof {
                assert(hay@.subrange(i as int, i + pat@.len())[k as int] != pat@[k as int]);
            }
            return false;
        }
        k = k + 1;
    }
    proof {
        assert(hay@.subrange(i as int, i + pat@.len()) =~= pat@);
    }
    true
}

/// The first start at or after `from` of an occurrence of `pat` ending by `to`.
fn find_bytes(hay: &[u8], pat: &[u8], from: usize, to: usize) -> (r: Option<usize>)
    requires
        to <= hay@.len(),
    ensures
        r is None <==> first_match(hay@, pat@, from as int, to as int) is None,
        r matches Some(i) ==> first_match(hay@, pat@, from as int, to as int) == Some(i as int),
{
    if to < pat.len() || from > to - pat.len() {
        return None;
    }
    let last = to - pat.len();
    let mut i = from;
    loop
        invariant
            from <= i <= last,
            last + pat@.len() == to,
            to <= hay@.len(),
            first_match(hay@, pat@, from as int, to as int) == first_match(
                hay@,
                pat@,
                i as int,
                to as int,
            ),
        decreases last - i,
    {
        if bytes_match_at(hay, pat, i) {
            return Some(i);
        }
        if i == last {
            proof {
                assert(first_match(hay@, pat@, i + 1, to as int) is None);
            }
            return None;
        }
        i = i + 1;
    }
}

/// The last start at or after `from` of an occurrence of `pat` ending by `to`.
fn rfind_bytes(hay: &[u8], pat: &[u8], from: usize, to: usize) -> (r: Option<usize>)
    requires
        to <= hay@.len(),
    ensures
        r is None <==> last_match(hay@, pat@, from as int, to as int) is None,
        r matches Some(i) ==> last_match(hay@, pat@, from as int, to as int) == Some(i as int),
{
    if to < pat.len() {
        return None;
    }
    let mut last = to - pat.len();
    loop
        invariant
            to <= hay@.len(),
            pat@.len() <= to,
            last + pat@.len() <= to,
            last_match(hay@, pat@, from as int, to as int) == last_match_upto(
                hay@,
                pat@,
                from as int,
                last as int,
            ),
        decreases last,
    {
        if last < from {
            return None;
        }
        if bytes_match_at(hay, pat, last) {
            return Some(last);
        }
        if last == 0 {
            proof {
                assert(last_match_upto(hay@, pat@, from as int, -1) is None);
            }
            return None;
        }
        last = last - 1;
    }
}

/// The start line's cut points that `find_forward` slices its text at fall on
/// char boundaries (slicing elsewhere would panic).
pub open spec fn forward_cuts_ok(b: &Buffer, sl: int, sc: int, plen: int) -> bool {
    match line_at(b, sl) {
        Some(t) => {
            &&& vstd::utf8::is_char_boundary(
                utf8_bytes(t),
                min_int(sc + 1, utf8_bytes(t).len() as int),
            )
            &&& vstd::utf8::is_char_boundary(
                utf8_bytes(t),
                min_int(sc + plen, utf8_bytes(t).len() as int),
            )
        },
        None => true,
    }
}

/// The start line's cut points that `find_backward` slices its text at fall on
/// char boundaries.
pub open spec fn backward_cuts_ok(b: &Buffer, sl: int, sc: int) -> bool {
    match line_at(b, sl) {
        Some(t) => {
            &&& vstd::utf8::is_char_boundary(utf8_bytes(t), min_int(sc, utf8_bytes(t).len() as int))
            &&& vstd::utf8::is_char_boundary(
                utf8_bytes(t),
                min_int(sc + 1, utf8_bytes(t).len() as int),
            )
        },
        None => true,
    }
}

/// Searches forward for a literal substring, starting after (start_line,
/// start_col) (a byte column) and wrapping round to the start position;
/// returns the (line, byte column) of the first match.
pub fn find_forward(buffer: &Buffer, start_line: usize, start_col: usize, pattern: &str) -> (r: Option<
    (usize, usize),
>)
    requires
        start_col + utf8_bytes(pattern@).len() < usize::MAX,
        forward_cuts_ok(buffer, start_line as int, start_col as int, utf8_bytes(pattern@).len() as int),
    ensures
        r is None <==> find_forward_result(
            buffer,
            start_line as int,
            start_col as int,
            utf8_bytes(pattern@),
        ) is None,
        r matches Some((l, c)) ==> find_forward_result(
            buffer,
            start_line as int,
            start_col as int,
            utf8_bytes(pattern@),
        ) == Some((l as int, c as int)),
{
    let pat = pattern.as_bytes();
    if pat.len() == 0 {
        return None;
    }
    let total_lines = rope_len_lines(&buffer.rope);
    let mut line_idx = start_line;
    while line_idx < total_lines
        invariant
            start_line <= line_idx,
            total_lines == crate::lines::line_count(buffer@),
            pat@ == utf8_bytes(pattern@),
            pat@.len() > 0,
            forward_pass(buffer, pat@, start_line as int, start_col as int, start_line as int)
                == forward_pass(buffer, pat@, start_line as int, start_col as int, line_idx as int),
            start_col + pat@.len() < usize::MAX,
        decreases total_lines - line_idx,
    {
        let line_text = match get_line(buffer, line_idx) {
            Some(t) => t,
            None => return None,
        };
        let hay = line_text.as_str().as_bytes();
        let len = hay.len();
        let search_from = if line_idx == start_line {
            if start_col + 1 < len {
                start_col + 1
            } else {
                len
            }
        } else {
            0
        };
        match find_bytes(hay, pat, search_from, len) {
            Some(col) => return Some((line_idx, col)),
            None => {},
        }
        line_idx = line_idx + 1;
    }
    let last = if start_line < total_lines - 1 {
        start_line
    } else {
        total_lines - 1
    };
    let mut line_idx: usize = 0;
    while line_idx <= last
        invariant
            last < total_lines,
            last as int == min_int(start_line as int, total_lines - 1),
            total_lines == crate::lines::line_count(buffer@),
            pat@ == utf8_bytes(pattern@),
            pat@.len() > 0,
            forward_pass(buffer, pat@, start_line as int, start_col as int, start_line as int) is None,
            forward_wrap(buffer, pat@, start_line as int, start_col as int, 0, last as int)
                == forward_wrap(
                buffer,
                pat@,
                start_line as int,
                start_col as int,
                line_idx as int,
                last as int,
            ),
            start_col + pat@.len() < usize::MAX,
        decreases last + 1 - line_idx,
    {
        let line_text = match get_line(buffer, line_idx) {
            Some(t) => t,
            None => return None,
        };
        let hay = line_text.as_str().as_bytes();
        let len = hay.len();
        let search_to = if line_idx == start_line {
            if start_col + pat.len() < len {
                start_col + pat.len()
            } else {
                len
            }
        } else {
            len
        };
        match find_bytes(hay, pat, 0, search_to) {
            Some(col) => return Some((line_idx, col)),
            None => {},
        }
        line_idx = line_idx + 1;
    }
    None
}

/// Searches backward for a literal substring, starting before (start_line,
/// start_col) (a byte column) and wrapping round from the end of the buffer;
/// returns the (line, byte column) of the match found.
pub fn find_backward(buffer: &Buffer, start_line: usize, start_col: usize, pattern: &str) -> (r: Option<
    (usize, usize),
>)
    requires
        start_col + 1 < usize::MAX,
        backward_cuts_ok(buffer, start_line as int, start_col as int),
    ensures
        r is None <==> find_backward_result(
            buffer,
            start_line as int,
            start_col as int,
            utf8_bytes(pattern@),
        ) is None,
        r matches Some((l, c)) ==> find_backward_result(
            buffer,
            start_line as int,
            start_col as int,
            utf8_bytes(pattern@),
        ) == Some((l as int, c as int)),
{
    let pat = pattern.as_bytes();
    if pat.len() == 0 {
        return None;
    }
    let total_lines = rope_len_lines(&buffer.rope);
    let first = if start_line < total_lines - 1 {
        start_line
    } else {
        total_lines - 1
    };
    let mut line_idx = first;
    loop
        invariant
            line_idx <= first < total_lines,
            first as int == min_int(start_line as int, total_lines - 1),
            total_lines == crate::lines::line_count(buffer@),
            pat@ == utf8_bytes(pattern@),
            pat@.len() > 0,
            backward_pass(buffer, pat@, start_line as int, start_col as int, first as int)
                == backward_pass(buffer, pat@, start_line as int, start_col as int, line_idx as int),
        ensures
            backward_pass(buffer, pat@, start_line as int, start_col as int, first as int) is None,
        decreases line_idx,
    {
        let line_text = match get_line(buffer, line_idx) {
            Some(t) => t,
            None => return None,
        };
        let hay = line_text.as_str().as_bytes();
        let len = hay.len();
        let search_to = if line_idx == start_line {
            if start_col < len {
                start_col
            } else {
                len
            }
        } else {
            len
        };
        match rfind_bytes(hay, pat, 0, search_to) {
            Some(col) => return Some((line_idx, col)),
            None => {},
        }
        if line_idx == 0 {
            proof {
                assert(backward_pass(buffer, pat@, start_line as int, start_col as int, -1) is None);
                assert(backward_pass(buffer, pat@, start_line as int, start_col as int, 0) is None);
            }
            break ;
        }
        line_idx = line_idx - 1;
    }
    let mut line_idx = total_lines - 1;
    loop
        invariant
            first <= line_idx < total_lines,
            first as int == min_int(start_line as int, total_lines - 1),
            total_lines == crate::lines::line_count(buffer@),
            pat@ == utf8_bytes(pattern@),
            pat@.len() > 0,
            backward_pass(buffer, pat@, start_line as int, start_col as int, first as int) is None,
            backward_wrap(
                buffer,
                pat@,
                start_line as int,
                start_col as int,
                total_lines - 1,
                first as int,
            ) == backward_wrap(
                buffer,
                pat@,
                start_line as int,
                start_col as int,
                line_idx as int,
                first as int,
            ),
            start_col + 1 < usize::MAX,
        ensures
            backward_wrap(
                buffer,
                pat@,
                start_line as int,
                start_col as int,
                total_lines - 1,
                first as int,
            ) is None,
        decreases line_idx,
    {
        let line_text = match get_line(buffer, line_idx) {
            Some(t) => t,
            None => return None,
        };
        let hay = line_text.as_str().as_bytes();
        let len = hay.len();
        let search_from = if line_idx == start_line {
            if start_col + 1 < len {
                start_col + 1
            } else {
                len
            }
        } else {
            0
        };
        if search_from < len {
            match rfind_bytes(hay, pat, search_from, len) {
                Some(col) => return Some((line_idx, col)),
                None => {},
            }
        }
        if line_idx == first {
            proof {
                assert(backward_wrap(
                    buffer,
                    pat@,
                    start_line as int,
                    start_col as int,
                    first - 1,
                    first as int,
                ) is None);
            }
            break ;
        }
        line_idx = line_idx - 1;
    }
    None
}


/// What an insertion adds, reading the same chars gives back and deleting
/// them undoes: for text `t` inserted at char index `i` (as `insert_at` does
/// at a position), the chars `i..i + |t|` of the result are `t`, and removing
/// them (as `delete_char_range` does over that range) restores the text.
pub proof fn delete_undoes_insert(s: Seq<char>, i: int, t: Seq<char>)
    requires
        0 <= i <= s.len(),
    ensures
        splice(s, i, i, t).subrange(i, i + t.len()) == t,
        splice(splice(s, i, i, t), i, i + t.len(), Seq::empty()) == s,
{
    let w = splice(s, i, i, t);
    assert(w.subrange(i, i + t.len()) =~= t);
    assert(splice(w, i, i + t.len(), Seq::empty()) =~= s);
}

/// `first_match` gives the least start from `from` on whose occurrence ends by
/// `to`, and `None` only when there is none.
proof fn lemma_first_match(hay: Seq<u8>, pat: Seq<u8>, from: int, to: int)
    requires
        0 <= from,
        to <= hay.len(),
    ensures
        first_match(hay, pat, from, to) matches Some(i) ==> {
            &&& from <= i
            &&& i + pat.len() <= to
            &&& matches_at(hay, pat, i)
            &&& forall|j: int| from <= j < i ==> !matches_at(hay, pat, j)
        },
        first_match(hay, pat, from, to) is None ==> forall|j: int|
            from <= j && j + pat.len() <= to ==> !matches_at(hay, pat, j),
    decreases to - from + 1,
{
    if from + pat.len() <= to && !matches_at(hay, pat, from) {
        lemma_first_match(hay, pat, from + 1, to);
        assert forall|j: int| from <= j && j + pat.len() <= to && first_match(hay, pat, from, to) is None
            implies !matches_at(hay, pat, j) by {
            if j > from {
            }
        }
    }
}

/// A line scan that stops on a match stops on a line of the buffer, at an
/// occurrence of the pattern.
proof fn lemma_forward_pass_sound(b: &Buffer, pat: Seq<u8>, sl: int, sc: int, l: int)
    requires
        0 <= sc,
    ensures
        forward_pass(b, pat, sl, sc, l) matches Some(Some((l2, c))) ==> {
            &&& 0 <= l2 < crate::lines::line_count(b@)
            &&& line_at(b, l2) matches Some(t) && matches_at(utf8_bytes(t), pat, c)
        },
        0 <= l ==> forward_pass(b, pat, sl, sc, l) != Some(None::<(int, int)>),
    decreases crate::lines::line_count(b@) - l,
{
    if 0 <= l < crate::lines::line_count(b@) {
        if let Some(t) = line_at(b, l) {
            let hay = utf8_bytes(t);
            let from = if l == sl { min_int(sc + 1, hay.len() as int) } else { 0 };
            lemma_first_match(hay, pat, from, hay.len() as int);
            lemma_forward_pass_sound(b, pat, sl, sc, l + 1);
        }
    }
}

proof fn lemma_forward_wrap_sound(b: &Buffer, pat: Seq<u8>, sl: int, sc: int, l: int, last: int)
    requires
        0 <= sc,
    ensures
        forward_wrap(b, pat, sl, sc, l, last) matches Some(Some((l2, c))) ==> {
            &&& 0 <= l2 < crate::lines::line_count(b@)
            &&& line_at(b, l2) matches Some(t) && matches_at(utf8_bytes(t), pat, c)
        },
        0 <= l ==> forward_wrap(b, pat, sl, sc, l, last) != Some(None::<(int, int)>),
    decreases last - l + 1,
{
    if 0 <= l <= last && l < crate::lines::line_count(b@) {
        if let Some(t) = line_at(b, l) {
            let hay = utf8_bytes(t);
            let to = if l == sl { min_int(sc + pat.len(), hay.len() as int) } else { hay.len() as int };
            lemma_first_match(hay, pat, 0, to);
            lemma_forward_wrap_sound(b, pat, sl, sc, l + 1, last);
        }
    }
}

/// A forward scan from line `l` that finds nothing means no occurrence on lines `l..`, except before the search start on the
/// start line.
proof fn lemma_forward_pass_complete(b: &Buffer, pat: Seq<u8>, sl: int, sc: int, l: int)
    requires
        0 <= sc,
        0 <= l,
        forward_pass(b, pat, sl, sc, l) is None,
    ensures
        forall|l2: int, i: int|
            l <= l2 < crate::lines::line_count(b@) && (l2 != sl || sc < i) ==> !#[trigger] matches_at(
                utf8_bytes(line_text(b@, l2)),
                pat,
                i,
            ),
    decreases crate::lines::line_count(b@) - l,
{
    if l < crate::lines::line_count(b@) {
        assert(line_at(b, l) is Some);
        let t = line_text(b@, l);
        let hay = utf8_bytes(t);
        let from = if l == sl { min_int(sc + 1, hay.len() as int) } else { 0 };
        lemma_first_match(hay, pat, from, hay.len() as int);
        lemma_forward_pass_complete(b, pat, sl, sc, l + 1);
    }
}

proof fn lemma_forward_wrap_complete(b: &Buffer, pat: Seq<u8>, sl: int, sc: int, l: int, last: int)
    requires
        0 <= sc,
        0 <= l,
        pat.len() > 0,
        last < crate::lines::line_count(b@),
        forward_wrap(b, pat, sl, sc, l, last) is None,
    ensures
        forall|l2: int, i: int|
            l <= l2 <= last && (l2 != sl || i <= sc) ==> !#[trigger] matches_at(
                utf8_bytes(line_text(b@, l2)),
                pat,
                i,
            ),
    decreases last - l + 1,
{
    if l <= last {
        assert(line_at(b, l) is Some);
        let t = line_text(b@, l);
        let hay = utf8_bytes(t);
        let to = if l == sl { min_int(sc + pat.len(), hay.len() as int) } else { hay.len() as int };
        lemma_first_match(hay, pat, 0, to);
        lemma_forward_wrap_complete(b, pat, sl, sc, l + 1, last);
    }
}

/// What `find_forward` finds is an occurrence of the pattern: a non-empty
/// pattern, on a line of the buffer, at the byte column returned.
pub proof fn find_forward_finds_the_pattern(b: &Buffer, sl: int, sc: int, pat: Seq<u8>)
    requires
        0 <= sc,
    ensures
        find_forward_result(b, sl, sc, pat) matches Some((l, c)) ==> {
            &&& pat.len() > 0
            &&& 0 <= l < crate::lines::line_count(b@)
            &&& matches_at(utf8_bytes(line_text(b@, l)), pat, c)
        },
{
    lemma_forward_pass_sound(b, pat, sl, sc, sl);
    lemma_forward_wrap_sound(b, pat, sl, sc, 0, min_int(sl, crate::lines::line_count(b@) - 1));
}

/// An occurrence on the start line after the start column wins: the search
/// returns the first one after the start column.
pub proof fn find_forward_prefers_the_start_line(b: &Buffer, sl: int, sc: int, pat: Seq<u8>, i: int)
    requires
        0 <= sc,
        pat.len() > 0,
        line_at(b, sl) is Some,
        sc < i,
        matches_at(utf8_bytes(line_at(b, sl).unwrap()), pat, i),
    ensures
        find_forward_result(b, sl, sc, pat) matches Some((l, c)) && l == sl && sc < c <= i
            && matches_at(utf8_bytes(line_text(b@, sl)), pat, c)
            && forall|j: int| sc < j < c ==> !matches_at(utf8_bytes(line_text(b@, sl)), pat, j),
{
    let hay = utf8_bytes(line_text(b@, sl));
    lemma_first_match(hay, pat, sc + 1, hay.len() as int);
    assert(min_int(sc + 1, hay.len() as int) == sc + 1);
}

/// A non-empty pattern is missed only when no line of the buffer holds it.
pub proof fn find_forward_misses_only_absent_patterns(b: &Buffer, sl: int, sc: int, pat: Seq<u8>)
    requires
        0 <= sc,
        0 <= sl,
        pat.len() > 0,
    ensures
        find_forward_result(b, sl, sc, pat) is None <==> forall|l: int, i: int|
            0 <= l < crate::lines::line_count(b@) ==> !#[trigger] matches_at(
                utf8_bytes(line_text(b@, l)),
                pat,
                i,
            ),
{
    let n = crate::lines::line_count(b@);
    let last = min_int(sl, n - 1);
    lemma_line_count_positive(b@);
    find_forward_finds_the_pattern(b, sl, sc, pat);
    lemma_forward_pass_sound(b, pat, sl, sc, sl);
    lemma_forward_wrap_sound(b, pat, sl, sc, 0, last);
    if find_forward_result(b, sl, sc, pat) is None {
        if sl < n {
            assert(line_at(b, sl) is Some);
        }
        assert(forward_pass(b, pat, sl, sc, sl) is None);
        lemma_forward_pass_complete(b, pat, sl, sc, sl);
        lemma_forward_wrap_complete(b, pat, sl, sc, 0, last);
        assert forall|l: int, i: int| 0 <= l < n implies !#[trigger] matches_at(
            utf8_bytes(line_text(b@, l)),
            pat,
            i,
        ) by {
            if l == sl {
                if i > sc {
                } else {
                }
            } else if l < sl {
            } else {
            }
        }
    }
}

/// The line starts of a text made of a prefix that ends in '\n' (or is
/// empty), a middle and a suffix: those of the prefix, then those of the
/// middle and of the suffix moved along.
proof fn lemma_three_part_starts(pp: Seq<char>, m: Seq<char>, ss: Seq<char>)
    requires
        lf_only(pp + (m + ss)),
        pp.len() == 0 || pp.last() == '\n',
        m.len() > 0,
        m.last() == '\n',
    ensures
        line_starts(pp + (m + ss)) == line_starts(pp).drop_last() + shifted(line_starts(m).drop_last(), pp.len() as int)
            + shifted(line_starts(ss), (pp.len() + m.len()) as int),
{
    lemma_lf_only_parts(pp, m + ss);
    lemma_line_starts_glue(pp, m + ss);
    lemma_line_starts_glue(m, ss);
    assert(line_starts(pp + (m + ss)) =~= line_starts(pp).drop_last() + shifted(line_starts(m).drop_last(), pp.len() as int)
        + shifted(line_starts(ss), (pp.len() + m.len()) as int));
}

/// The line starts of a prefix that ends in '\n' (or is empty) followed by one
/// more line without a break.
proof fn lemma_two_part_starts(pp: Seq<char>, m: Seq<char>)
    requires
        lf_only(pp + m),
        pp.len() == 0 || pp.last() == '\n',
        forall|j: int| 0 <= j < m.len() ==> m[j] != '\n',
    ensures
        line_starts(pp + m) == line_starts(pp).drop_last().push(pp.len() as int),
{
    lemma_lf_only_parts(pp, m);
    lemma_line_starts_glue(pp, m);
    lemma_single_line(m);
    assert(line_starts(pp + m) =~= line_starts(pp).drop_last().push(pp.len() as int));
}

/// A one-line text ending in '\n' has its lines start at 0 and at its end.
proof fn lemma_one_line_starts(m: Seq<char>)
    requires
        lf_only(m),
        m.len() > 0,
        m.last() == '\n',
        forall|j: int| 0 <= j < m.len() - 1 ==> m[j] != '\n',
    ensures
        line_starts(m).drop_last() == seq![0int],
{
    lemma_single_line(m);
    assert(line_starts(m).drop_last() =~= seq![0int]);
}

/// Two texts that agree up to `p` and whose first `k + 1` line starts agree,
/// the last of them `p`, have the same first `k` lines.
proof fn lemma_same_lines_before(s: Seq<char>, r: Seq<char>, p: int, k: int)
    requires
        0 <= k,
        k < crate::lines::line_count(s),
        k < crate::lines::line_count(r),
        p <= s.len(),
        p <= r.len(),
        s.subrange(0, p) == r.subrange(0, p),
        line_starts(s).subrange(0, k + 1) == line_starts(r).subrange(0, k + 1),
        line_starts(s)[k] == p,
    ensures
        forall|i: int| 0 <= i < k ==> #[trigger] line_text(r, i) == line_text(s, i),
{
    lemma_line_bounds(s);
    assert forall|i: int| 0 <= i < k implies #[trigger] line_text(r, i) == line_text(s, i) by {
        assert(line_starts(s).subrange(0, k + 1)[i] == line_starts(s)[i]);
        assert(line_starts(s).subrange(0, k + 1)[i + 1] == line_starts(s)[i + 1]);
        assert(line_start(r, i) == line_start(s, i));
        assert(line_start(r, i + 1) == line_start(s, i + 1));
        assert(line_start(s, i + 1) <= line_start(s, k));
        assert(line_start(s, i) <= line_start(s, i + 1));
        assert forall|t: int| 0 <= t < line_start(s, i + 1) - line_start(s, i) implies line_text(r, i)[t] == line_text(s, i)[t] by {
            let x = line_start(s, i) + t;
            assert(0 <= line_start(s, i));
            assert(x < p);
            assert(s.subrange(0, p)[x] == r.subrange(0, p)[x]);
            assert(s.subrange(0, p)[x] == s[x]);
            assert(r.subrange(0, p)[x] == r[x]);
            assert(line_text(s, i)[t] == s[x]);
            assert(line_text(r, i)[t] == r[x]);
        }
        assert(line_text(r, i) =~= line_text(s, i));
    }
}

/// Two texts that end in the same suffix `ss`, from `e` and from `f`, whose
/// line starts end in those of `ss` moved to `e` and `f`, after `k + 1` and `k`
/// others: line `k + j` of the second is line `k + 1 + j` of the first.
proof fn lemma_same_lines_after(s: Seq<char>, r: Seq<char>, ss: Seq<char>, e: int, f: int, k: int)
    requires
        0 <= k,
        0 <= e <= s.len(),
        0 <= f <= r.len(),
        s.subrange(e, s.len() as int) == ss,
        r.subrange(f, r.len() as int) == ss,
        line_starts(s).len() == k + 1 + line_starts(ss).len(),
        line_starts(r).len() == k + line_starts(ss).len(),
        line_starts(s).subrange(k + 1, line_starts(s).len() as int) == shifted(line_starts(ss), e),
        line_starts(r).subrange(k, line_starts(r).len() as int) == shifted(line_starts(ss), f),
    ensures
        forall|i: int| k <= i < crate::lines::line_count(r) ==> #[trigger] line_text(r, i) == line_text(s, i + 1),
{
    assert forall|i: int| k <= i < crate::lines::line_count(r) implies #[trigger] line_text(r, i) == line_text(s, i + 1) by {
        let j = i - k;
        crate::lines::lemma_line_range(ss, j);
        assert(line_starts(s).subrange(k + 1, line_starts(s).len() as int)[j] == line_starts(s)[i + 1]);
        assert(line_starts(r).subrange(k, line_starts(r).len() as int)[j] == line_starts(r)[i]);
        assert(line_start(r, i) == f + line_start(ss, j));
        assert(line_start(s, i + 1) == e + line_start(ss, j));
        if j + 1 < line_starts(ss).len() {
            assert(line_starts(s).subrange(k + 1, line_starts(s).len() as int)[j + 1] == line_starts(s)[i + 2]);
            assert(line_starts(r).subrange(k, line_starts(r).len() as int)[j + 1] == line_starts(r)[i + 1]);
        }
        assert(line_start(r, i + 1) == f + line_start(ss, j + 1));
        assert(line_start(s, i + 2) == e + line_start(ss, j + 1));
        assert forall|t: int| 0 <= t < line_len(ss, j) implies line_text(r, i)[t] == line_text(s, i + 1)[t] by {
            let x = line_start(ss, j) + t;
            assert(s.subrange(e, s.len() as int)[x] == r.subrange(f, r.len() as int)[x]);
        }
        assert(line_text(r, i) =~= line_text(s, i + 1));
    }
}

/// The text after joining lines `line` and `line + 1` of `s`.
pub open spec fn joined_lines_text(s: Seq<char>, line: int) -> Seq<char> {
    let joined = joined_content(trim_newlines(line_text(s, line)), trim_newlines(line_text(s, line + 1)));
    let ins = if line + 2 < crate::lines::line_count(s) {
        joined.push('\n')
    } else {
        joined
    };
    splice(s, line_start(s, line), line_end(s, line + 1), ins)
}

#[verifier::rlimit(100)]
proof fn lemma_joined_lines(s: Seq<char>, line: int)
    requires
        0 <= line,
        line + 1 < crate::lines::line_count(s),
        lf_only(s),
    ensures
        ({
            let r = joined_lines_text(s, line);
            &&& crate::lines::line_count(r) == crate::lines::line_count(s) - 1
            &&& trim_newlines(line_text(r, line)) == joined_content(
                trim_newlines(line_text(s, line)),
                trim_newlines(line_text(s, line + 1)),
            )
            &&& forall|i: int| 0 <= i < line ==> #[trigger] line_text(r, i) == line_text(s, i)
            &&& forall|i: int| line < i < crate::lines::line_count(r) ==> #[trigger] line_text(r, i) == line_text(s, i + 1)
        }),
{
    let n = crate::lines::line_count(s);
    let p = line_start(s, line);
    let q = line_end(s, line);
    let e = line_end(s, line + 1);
    let nl2 = line + 2 < n;
    assert(0 <= p < q <= e <= s.len() && (!nl2 ==> e == s.len()) && q == line_start(s, line + 1)
        && s[q - 1] == '\n' && (nl2 ==> q < e && s[e - 1] == '\n')
        && (forall|j: int| p <= j < q - 1 ==> s[j] != '\n')
        && (forall|j: int| q <= j < e && (j < e - 1 || !nl2) ==> s[j] != '\n')
        && (p == 0 || s[p - 1] == '\n')) by {
        lemma_line_bounds(s);
        lemma_line_has_one_break(s, line);
        lemma_line_has_one_break(s, line + 1);
        if line > 0 {
            lemma_line_has_one_break(s, line - 1);
            assert(line_end(s, line - 1) == p);
        }
    }
    let pp = s.subrange(0, p);
    let l1 = s.subrange(p, q);
    let l2 = s.subrange(q, e);
    let ss = s.subrange(e, s.len() as int);
    assert(s =~= pp + (l1 + (l2 + ss)));
    let c1 = l1.subrange(0, l1.len() - 1);
    let k2 = if nl2 { l2.len() - 1 } else { l2.len() as int };
    let c2 = l2.subrange(0, k2);
    assert(trim_newlines(line_text(s, line)) == c1 && trim_newlines(line_text(s, line + 1)) == c2) by {
        lemma_trim_newlines_at(l1, l1.len() - 1);
        if k2 > 0 {
            assert(s[q + k2 - 1] != '\n');
        }
        lemma_trim_newlines_at(l2, k2);
    }
    let joined = joined_content(c1, c2);
    assert forall|j: int| 0 <= j < joined.len() implies joined[j] != '\n' && !is_break_char(joined[j]) by {
        assert(lf_only(s));
        if c1.len() == 0 {
            assert(joined[j] == s[q + j]);
        } else if c2.len() == 0 {
            assert(joined[j] == s[p + j]);
        } else if j < c1.len() {
            assert(joined[j] == s[p + j]);
        } else if j > c1.len() {
            assert(joined[j] == s[q + j - c1.len() - 1]);
        }
    }
    let ins = if nl2 { joined.push('\n') } else { joined };
    let r = joined_lines_text(s, line);
    assert(r =~= pp + (ins + ss));
    assert(lf_only(r)) by {
        lemma_lf_only_parts(pp, l1 + (l2 + ss));
        lemma_lf_only_parts(l1, l2 + ss);
        lemma_lf_only_parts(l2, ss);
        assert(lf_only(ins));
        lemma_lf_only_parts(ins, ss);
        lemma_lf_only_parts(pp, ins + ss);
    }
    let lp = line_starts(pp).drop_last();
    let m = lp.len() as int;
    // the old text's line starts
    assert(l1.len() > 0 && l1.last() == '\n');
    assert forall|j: int| 0 <= j < l1.len() - 1 implies l1[j] != '\n' by {
        assert(l1[j] == s[p + j]);
    }
    assert(line_starts(s) == lp + seq![p] + shifted(line_starts(l2 + ss), q)) by {
        lemma_lf_only_parts(pp, l1 + (l2 + ss));
        lemma_lf_only_parts(l1, l2 + ss);
        lemma_three_part_starts(pp, l1, l2 + ss);
        lemma_one_line_starts(l1);
        assert(shifted(seq![0int], p) =~= seq![p]);
        assert(pp + (l1 + (l2 + ss)) == s);
    }
    if nl2 {
        assert forall|j: int| 0 <= j < l2.len() - 1 implies l2[j] != '\n' by {
            assert(l2[j] == s[q + j]);
        }
        assert forall|j: int| 0 <= j < ins.len() - 1 implies ins[j] != '\n' by {
            assert(ins[j] == joined[j]);
        }
        assert(line_starts(s) == lp + seq![p, q] + shifted(line_starts(ss), e)) by {
            lemma_lf_only_parts(pp, l1 + (l2 + ss));
            lemma_lf_only_parts(l1, l2 + ss);
            assert(l2 + ss =~= seq![] + (l2 + ss));
            lemma_three_part_starts(Seq::<char>::empty(), l2, ss);
            lemma_one_line_starts(l2);
            assert(line_starts(Seq::<char>::empty()) =~= seq![0int]);
            assert(line_starts(l2 + ss) =~= seq![0int] + shifted(line_starts(ss), l2.len() as int));
            assert(shifted(line_starts(l2 + ss), q) =~= seq![q] + shifted(line_starts(ss), e));
            assert(lp + seq![p] + (seq![q] + shifted(line_starts(ss), e)) =~= lp + seq![p, q] + shifted(line_starts(ss), e));
        }
        assert(line_starts(r) == lp + seq![p] + shifted(line_starts(ss), p + ins.len())) by {
            lemma_lf_only_parts(pp, ins + ss);
            lemma_three_part_starts(pp, ins, ss);
            lemma_one_line_starts(ins);
            assert(shifted(seq![0int], p) =~= seq![p]);
        }
    } else {
        assert(ss =~= Seq::<char>::empty());
        assert forall|j: int| 0 <= j < l2.len() implies l2[j] != '\n' by {
            assert(l2[j] == s[q + j]);
        }
        assert(line_starts(s) == lp + seq![p, q]) by {
            lemma_lf_only_parts(pp, l1 + (l2 + ss));
            lemma_lf_only_parts(l1, l2 + ss);
            assert(l2 + ss =~= l2);
            assert(l2 =~= Seq::<char>::empty() + l2);
            lemma_two_part_starts(Seq::<char>::empty(), l2);
            assert(line_starts(Seq::<char>::empty()) =~= seq![0int]);
            assert(line_starts(l2 + ss) =~= seq![0int]);
            assert(shifted(seq![0int], q) =~= seq![q]);
            assert(lp + seq![p] + seq![q] =~= lp + seq![p, q]);
        }
        assert(line_starts(r) == lp + seq![p]) by {
            assert(pp + (ins + ss) =~= pp + ins);
            lemma_lf_only_parts(pp, ins + ss);
            lemma_two_part_starts(pp, ins);
            assert(lp.push(p) =~= lp + seq![p]);
        }
    }
    // line `line` starts right after the prefix's lines
    assert(m == line) by {
        lemma_line_bounds(s);
        assert(line_starts(s)[m] == p);
        assert(line_start(s, m) == p);
        if m < line {
            assert(line_start(s, m) < line_start(s, line));
        } else if m > line {
            assert(line_start(s, line) < line_start(s, m));
        }
    }
    assert(crate::lines::line_count(r) == n - 1);
    assert(s.subrange(0, p) =~= r.subrange(0, p));
    assert(line_starts(s).subrange(0, line + 1) =~= line_starts(r).subrange(0, line + 1));
    lemma_same_lines_before(s, r, p, line);
    assert(line_text(r, line) =~= ins);
    assert(trim_newlines(line_text(r, line)) == joined) by {
        lemma_trim_newlines_at(ins, joined.len() as int);
    }
    if nl2 {
        assert(s.subrange(e, s.len() as int) =~= ss);
        assert(r.subrange(p + ins.len(), r.len() as int) =~= ss);
        assert(line_starts(s).subrange(line + 2, line_starts(s).len() as int) =~= shifted(line_starts(ss), e));
        assert(line_starts(r).subrange(line + 1, line_starts(r).len() as int) =~= shifted(line_starts(ss), p + ins.len()));
        lemma_same_lines_after(s, r, ss, e, p + ins.len(), line + 1);
    }
}

/// Joining lines `line` and `line + 1` of a text whose breaks are all '\n',
/// leaves one line fewer: the lines before are
/// unchanged, line `line` holds the two contents joined, and the lines after
/// are the old ones moved up by one.
pub proof fn join_lines_merges_two_lines(b: &Buffer, line: int)
    requires
        0 <= line,
        line + 1 < crate::lines::line_count(b@),
        lf_only(b@),
    ensures
        ({
            let r = join_lines_text(b, line);
            &&& crate::lines::line_count(r) == crate::lines::line_count(b@) - 1
            &&& trim_newlines(line_text(r, line)) == joined_content(
                line_content(b, line),
                line_content(b, line + 1),
            )
            &&& forall|i: int| 0 <= i < line ==> #[trigger] line_text(r, i) == line_text(b@, i)
            &&& forall|i: int| line < i < crate::lines::line_count(r) ==> #[trigger] line_text(r, i) == line_text(b@, i + 1)
        }),
{
    lemma_joined_lines(b@, line);
    assert(join_lines_text(b, line) == joined_lines_text(b@, line));
}

proof fn lemma_blank_run_end(s: Seq<char>, width: int, i: int)
    requires
        0 <= i,
        i <= s.len(),
        i <= width || i == 0,
        forall|j: int| 0 <= j < i ==> s[j] == ' ' || s[j] == '\t',
    ensures
        ({
            let k = blank_run_end(s, width, i);
            &&& i <= k <= s.len()
            &&& (k <= width || k == 0)
            &&& forall|j: int| 0 <= j < k ==> s[j] == ' ' || s[j] == '\t'
            &&& (k < width && k < s.len()) ==> s[k] != ' ' && s[k] != '\t'
        }),
    decreases s.len() - i,
{
    if 0 <= i < s.len() && i < width && (s[i] == ' ' || s[i] == '\t') {
        lemma_blank_run_end(s, width, i + 1);
    }
}

/// What `unindent_line` takes off a line's content: at most `indent_width`
/// leading chars, all spaces or tabs, and as many as there are up to that
/// width. The line keeps the rest of its content, a suffix at least
/// `len - indent_width` chars long.
pub proof fn unindent_removes_at_most_the_width(content: Seq<char>, indent_width: nat)
    ensures
        ({
            let k = blank_run_end(content, indent_width as int, 0);
            let kept = content.subrange(k, content.len() as int);
            &&& 0 <= k <= indent_width
            &&& k <= content.len()
            &&& kept.len() >= content.len() - indent_width
            &&& content == content.subrange(0, k) + kept
            &&& forall|j: int| 0 <= j < k ==> content[j] == ' ' || content[j] == '\t'
            &&& (k < indent_width && k < content.len()) ==> content[k] != ' ' && content[k] != '\t'
        }),
{
    lemma_blank_run_end(content, indent_width as int, 0);
    let k = blank_run_end(content, indent_width as int, 0);
    assert(content =~= content.subrange(0, k) + content.subrange(k, content.len() as int));
}

/// `last_match_upto` gives the greatest start in `from..=last` of an
/// occurrence, and `None` only when there is none there.
proof fn lemma_last_match_upto(hay: Seq<u8>, pat: Seq<u8>, from: int, last: int)
    requires
        0 <= from,
    ensures
        last_match_upto(hay, pat, from, last) matches Some(i) ==> {
            &&& from <= i <= last
            &&& matches_at(hay, pat, i)
            &&& forall|j: int| i < j <= last ==> !matches_at(hay, pat, j)
        },
        last_match_upto(hay, pat, from, last) is None ==> forall|j: int| from <= j <= last ==> !matches_at(hay, pat, j),
    decreases last - from + 1,
{
    if from <= last && !matches_at(hay, pat, last) {
        lemma_last_match_upto(hay, pat, from, last - 1);
    }
}

/// An occurrence on the start line that ends by the start column wins: the
/// backward search returns the last occurrence there that ends by the start
/// column, the nearest one before the cursor.
pub proof fn find_backward_prefers_the_nearest_on_the_start_line(b: &Buffer, sl: int, sc: int, pat: Seq<u8>, i: int)
    requires
        0 <= sc,
        pat.len() > 0,
        0 <= sl < crate::lines::line_count(b@),
        0 <= i,
        i + pat.len() <= sc,
        matches_at(utf8_bytes(line_text(b@, sl)), pat, i),
    ensures
        find_backward_result(b, sl, sc, pat) matches Some((l, c)) && l == sl && i <= c && c + pat.len() <= sc
            && matches_at(utf8_bytes(line_text(b@, sl)), pat, c)
            && forall|j: int| c < j && j + pat.len() <= sc ==> !matches_at(utf8_bytes(line_text(b@, sl)), pat, j),
{
    let hay = utf8_bytes(line_text(b@, sl));
    let to = min_int(sc, hay.len() as int);
    lemma_last_match_upto(hay, pat, 0, to - pat.len());
    assert(min_int(sl, crate::lines::line_count(b@) - 1) == sl);
    assert(line_at(b, sl) == Some(line_text(b@, sl)));
}

proof fn lemma_backward_pass_sound(b: &Buffer, pat: Seq<u8>, sl: int, sc: int, l: int)
    ensures
        backward_pass(b, pat, sl, sc, l) matches Some(Some((l2, c))) ==> 0 <= l2 < crate::lines::line_count(b@)
            && matches_at(utf8_bytes(line_text(b@, l2)), pat, c),
    decreases l + 1,
{
    if 0 <= l < crate::lines::line_count(b@) {
        let hay = utf8_bytes(line_text(b@, l));
        let to = if l == sl { min_int(sc, hay.len() as int) } else { hay.len() as int };
        lemma_last_match_upto(hay, pat, 0, to - pat.len());
        lemma_backward_pass_sound(b, pat, sl, sc, l - 1);
    }
}

proof fn lemma_backward_wrap_sound(b: &Buffer, pat: Seq<u8>, sl: int, sc: int, l: int, first: int)
    requires
        0 <= sc,
    ensures
        backward_wrap(b, pat, sl, sc, l, first) matches Some(Some((l2, c))) ==> 0 <= l2 < crate::lines::line_count(b@)
            && matches_at(utf8_bytes(line_text(b@, l2)), pat, c),
    decreases l - first + 1,
{
    if first <= l && 0 <= l < crate::lines::line_count(b@) {
        let hay = utf8_bytes(line_text(b@, l));
        let from = if l == sl { min_int(sc + 1, hay.len() as int) } else { 0 };
        lemma_last_match_upto(hay, pat, from, hay.len() - pat.len());
        lemma_backward_wrap_sound(b, pat, sl, sc, l - 1, first);
    }
}

/// What `find_backward` finds is an occurrence of the pattern: a non-empty
/// pattern, on a line of the buffer, at the byte column returned.
pub proof fn find_backward_finds_the_pattern(b: &Buffer, sl: int, sc: int, pat: Seq<u8>)
    requires
        0 <= sc,
    ensures
        find_backward_result(b, sl, sc, pat) matches Some((l, c)) ==> {
            &&& pat.len() > 0
            &&& 0 <= l < crate::lines::line_count(b@)
            &&& matches_at(utf8_bytes(line_text(b@, l)), pat, c)
        },
{
    let first = min_int(sl, crate::lines::line_count(b@) - 1);
    lemma_backward_pass_sound(b, pat, sl, sc, first);
    lemma_backward_wrap_sound(b, pat, sl, sc, crate::lines::line_count(b@) - 1, first);
}
} // verus!
