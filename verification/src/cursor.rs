//! Cursor: a (line, column) position in a buffer, and pure movement functions.
//!
//! Movements take a cursor and a buffer and return a new cursor. Line lengths
//! are measured over the line without its trailing '\n', in UTF-8 bytes.
//! The word motions index the chars of that same content.
use crate::buffer::{self, line_content, Buffer};
use crate::lines::{byte_len, last_line, lemma_line_count_positive};
use crate::text::{char_is_whitespace, is_whitespace, is_word_char, str_to_chars, word_char};
use vstd::prelude::*;

verus! {

/// A position within a buffer, identified by zero-indexed line and column.
#[derive(Debug, Clone, Copy, PartialEq, Eq, Structural)]
pub struct Cursor {
    pub line: usize,
    pub column: usize,
}

/// Creates a new Cursor at the given line and column.
pub fn new(line: usize, column: usize) -> (c: Cursor)
    ensures
        c == (Cursor { line, column }),
{
    Cursor { line, column }
}

/// The length of a line's content in UTF-8 bytes (0 out of bounds).
pub open spec fn line_length(b: &Buffer, i: int) -> int {
    byte_len(line_content(b, i))
}

/// The last column a normal-mode cursor can rest on: one before the end of the
/// line's content, or 0 on an empty line.
pub open spec fn last_column(b: &Buffer, i: int) -> int {
    if line_length(b, i) > 0 {
        line_length(b, i) - 1
    } else {
        0
    }
}

/// The zero-indexed last line of the buffer.
pub open spec fn last_line_index(b: &Buffer) -> int {
    last_line(b@)
}

/// The cursor on `line` with `column` clamped to that line's length.
pub open spec fn clamped(b: &Buffer, line: int, column: int) -> Cursor {
    Cursor {
        line: line as usize,
        column: (if column < line_length(b, line) {
            column
        } else {
            line_length(b, line)
        }) as usize,
    }
}

/// Where `k` (up) goes: the line above (or line 0), column clamped.
pub open spec fn up_target(b: &Buffer, c: Cursor) -> Cursor {
    clamped(b, if c.line > 0 { c.line - 1 } else { 0 }, c.column as int)
}

/// Where `j` (down) goes: the line below (or the last line), column clamped.
pub open spec fn down_target(b: &Buffer, c: Cursor) -> Cursor {
    clamped(b, if c.line < last_line_index(b) { c.line + 1 } else { c.line as int }, c.column as int)
}

/// Where `h` (left) goes: one column left, or the end of the previous line.
pub open spec fn left_target(b: &Buffer, c: Cursor) -> Cursor {
    if c.column > 0 {
        Cursor { line: c.line, column: (c.column - 1) as usize }
    } else if c.line > 0 {
        Cursor { line: (c.line - 1) as usize, column: line_length(b, c.line - 1) as usize }
    } else {
        c
    }
}

/// Where `l` (right) goes: one column right, or the start of the next line.
pub open spec fn right_target(b: &Buffer, c: Cursor) -> Cursor {
    if c.column < line_length(b, c.line as int) {
        Cursor { line: c.line, column: (c.column + 1) as usize }
    } else if c.line < last_line_index(b) {
        Cursor { line: (c.line + 1) as usize, column: 0 }
    } else {
        c
    }
}

/// The cursor clamped into the buffer (what `ensure_within_bounds` returns).
pub open spec fn bounded(b: &Buffer, c: Cursor) -> Cursor {
    clamped(b, if c.line < last_line_index(b) { c.line as int } else { last_line_index(b) }, c.column as int)
}

/// Returns the display length of a line (bytes of its content without '\n').
fn line_length_of(buf: &Buffer, line_index: usize) -> (n: usize)
    ensures
        n == line_length(buf, line_index as int),
{
    let content = buffer::get_line_content(buf, line_index);
    content.as_str().as_bytes().len()
}

/// Returns the zero-indexed last line of the buffer.
fn last_line_index_of(buf: &Buffer) -> (n: usize)
    ensures
        n == last_line_index(buf),
{
    proof {
        lemma_line_count_positive(buf@);
    }
    buffer::line_count(buf) - 1
}

/// Creates a cursor at the given line with column clamped to line length.
fn clamp_column_to_line(line: usize, desired_column: usize, buf: &Buffer) -> (c: Cursor)
    ensures
        c == clamped(buf, line as int, desired_column as int),
{
    let max_column = line_length_of(buf, line);
    Cursor {
        line,
        column: if desired_column < max_column {
            desired_column
        } else {
            max_column
        },
    }
}

/// Moves the cursor down by one line (staying on the last line), clamping the
/// column to the target line's length.
pub fn move_down(cursor: Cursor, buf: &Buffer) -> (c: Cursor)
    ensures
        c == down_target(buf, cursor),
        c == clamped(
            buf,
            if cursor.line < last_line_index(buf) {
                cursor.line + 1
            } else {
                cursor.line as int
            },
            cursor.column as int,
        ),
{
    let last_line = last_line_index_of(buf);
    let new_line = if cursor.line < last_line {
        cursor.line + 1
    } else {
        cursor.line
    };
    clamp_column_to_line(new_line, cursor.column, buf)
}

/// Moves the cursor up by one line (staying on the first line), clamping the
/// column to the target line's length.
pub fn move_up(cursor: Cursor, buf: &Buffer) -> (c: Cursor)
    ensures
        c == up_target(buf, cursor),
        c == clamped(
            buf,
            if cursor.line > 0 {
                cursor.line - 1
            } else {
                0
            },
            cursor.column as int,
        ),
{
    let new_line = if cursor.line > 0 {
        cursor.line - 1
    } else {
        0
    };
    clamp_column_to_line(new_line, cursor.column, buf)
}

/// Moves the cursor right by one column; at the end of a line it wraps to
/// column 0 of the next line, and at the end of the last line it stays.
pub fn move_right(cursor: Cursor, buf: &Buffer) -> (c: Cursor)
    ensures
        cursor.column < line_length(buf, cursor.line as int) ==> c == (Cursor {
            line: cursor.line,
            column: (cursor.column + 1) as usize,
        }),
        cursor.column >= line_length(buf, cursor.line as int) && cursor.line < last_line_index(
            buf,
        ) ==> c == (Cursor { line: (cursor.line + 1) as usize, column: 0 }),
        cursor.column >= line_length(buf, cursor.line as int) && cursor.line >= last_line_index(
            buf,
        ) ==> c == cursor,
        c == right_target(buf, cursor),
{
    let current_line_len = line_length_of(buf, cursor.line);
    if cursor.column < current_line_len {
        Cursor { line: cursor.line, column: cursor.column + 1 }
    } else if cursor.line < last_line_index_of(buf) {
        Cursor { line: cursor.line + 1, column: 0 }
    } else {
        cursor
    }
}

/// Moves the cursor left by one column; at the start of a line it wraps to the
/// end of the previous line, and at the start of the first line it stays.
pub fn move_left(cursor: Cursor, buf: &Buffer) -> (c: Cursor)
    ensures
        cursor.column > 0 ==> c == (Cursor {
            line: cursor.line,
            column: (cursor.column - 1) as usize,
        }),
        cursor.column == 0 && cursor.line > 0 ==> c == (Cursor {
            line: (cursor.line - 1) as usize,
            column: line_length(buf, cursor.line - 1) as usize,
        }),
        cursor.column == 0 && cursor.line == 0 ==> c == cursor,
        c == left_target(buf, cursor),
{
    if cursor.column > 0 {
        Cursor { line: cursor.line, column: cursor.column - 1 }
    } else if cursor.line > 0 {
        let prev_line = cursor.line - 1;
        let prev_line_len = line_length_of(buf, prev_line);
        Cursor { line: prev_line, column: prev_line_len }
    } else {
        cursor
    }
}

/// Clamps a cursor into the buffer: the line to the last line, then the column
/// to that line's length.
pub fn ensure_within_bounds(cursor: Cursor, buf: &Buffer) -> (c: Cursor)
    ensures
        c == bounded(buf, cursor),
        c == clamped(
            buf,
            if cursor.line < last_line_index(buf) {
                cursor.line as int
            } else {
                last_line_index(buf)
            },
            cursor.column as int,
        ),
{
    let last = last_line_index_of(buf);
    let clamped_line = if cursor.line < last {
        cursor.line
    } else {
        last
    };
    clamp_column_to_line(clamped_line, cursor.column, buf)
}

/// Moves the cursor to column 0 of the current line (vim `0`).
pub fn move_to_line_start(cursor: Cursor, _buf: &Buffer) -> (c: Cursor)
    ensures
        c == (Cursor { line: cursor.line, column: 0 }),
{
    Cursor { line: cursor.line, column: 0 }
}

/// Moves the cursor onto the last char of the current line (vim `$`).
pub fn move_to_line_end(cursor: Cursor, buf: &Buffer) -> (c: Cursor)
    ensures
        c == (Cursor { line: cursor.line, column: last_column(buf, cursor.line as int) as usize }),
{
    let len = line_length_of(buf, cursor.line);
    Cursor {
        line: cursor.line,
        column: if len > 0 {
            len - 1
        } else {
            0
        },
    }
}

/// Moves the cursor one past the last char of the line, where appended text
/// goes in insert mode (vim `A`).
pub fn move_to_line_end_for_insert(cursor: Cursor, buf: &Buffer) -> (c: Cursor)
    ensures
        c == (Cursor { line: cursor.line, column: line_length(buf, cursor.line as int) as usize }),
{
    let len = line_length_of(buf, cursor.line);
    Cursor { line: cursor.line, column: len }
}

/// Moves the cursor right by one column on the same line, clamped to the line
/// length (vim `a`).
pub fn move_right_on_line(cursor: Cursor, buf: &Buffer) -> (c: Cursor)
    requires
        cursor.column < usize::MAX,
    ensures
        c == clamped(buf, cursor.line as int, cursor.column + 1),
{
    let len = line_length_of(buf, cursor.line);
    Cursor {
        line: cursor.line,
        column: if cursor.column + 1 < len {
            cursor.column + 1
        } else {
            len
        },
    }
}

/// The index of the first char of `v` that is not whitespace, searching from `i`.
pub open spec fn first_non_blank_from(v: Seq<char>, i: int) -> Option<int>
    decreases v.len() - i,
{
    if i < 0 || i >= v.len() {
        None
    } else if !is_whitespace(v[i]) {
        Some(i)
    } else {
        first_non_blank_from(v, i + 1)
    }
}

/// The index of the first non-whitespace char of `v`.
fn first_non_blank(v: &Vec<char>) -> (r: Option<usize>)
    ensures
        r is None <==> first_non_blank_from(v@, 0) is None,
        r matches Some(p) ==> first_non_blank_from(v@, 0) == Some(p as int),
{
    let mut i: usize = 0;
    while i < v.len()
        invariant
            i <= v@.len(),
            first_non_blank_from(v@, 0) == first_non_blank_from(v@, i as int),
        decreases v@.len() - i,
    {
        if !char_is_whitespace(v[i]) {
            return Some(i);
        }
        i = i + 1;
    }
    None
}

/// The chars of line `i`, break included (empty out of bounds).
pub open spec fn raw_line(b: &Buffer, i: int) -> Seq<char> {
    match buffer::line_at(b, i) {
        Some(t) => t,
        None => Seq::empty(),
    }
}

/// Moves the cursor to the first non-blank char of the current line (vim `^`);
/// column 0 when the line is all blank.
pub fn move_to_first_non_blank(cursor: Cursor, buf: &Buffer) -> (c: Cursor)
    ensures
        c == (Cursor {
            line: cursor.line,
            column: match first_non_blank_from(raw_line(buf, cursor.line as int), 0) {
                Some(p) => p as usize,
                None => 0,
            },
        }),
{
    let v = match buffer::get_line(buf, cursor.line) {
        Some(text) => str_to_chars(text.as_str()),
        None => Vec::new(),
    };
    proof {
        assert(v@ == raw_line(buf, cursor.line as int));
    }
    let first = match first_non_blank(&v) {
        Some(p) => p,
        None => 0,
    };
    Cursor { line: cursor.line, column: first }
}

/// Moves the cursor to the start of the document (vim `gg`).
pub fn move_to_document_start(_cursor: Cursor, _buf: &Buffer) -> (c: Cursor)
    ensures
        c == (Cursor { line: 0, column: 0 }),
{
    Cursor { line: 0, column: 0 }
}

/// Moves the cursor to column 0 of the last line (vim `G`).
pub fn move_to_document_end(_cursor: Cursor, buf: &Buffer) -> (c: Cursor)
    ensures
        c == (Cursor { line: last_line_index(buf) as usize, column: 0 }),
{
    Cursor { line: last_line_index_of(buf), column: 0 }
}

/// The index after the run of chars from `i` whose word-ness is `w`.
pub open spec fn skip_class(v: Seq<char>, i: int, w: bool) -> int
    decreases v.len() - i,
{
    if 0 <= i < v.len() && is_word_char(v[i]) == w {
        skip_class(v, i + 1, w)
    } else {
        i
    }
}

/// The index after the run of whitespace chars from `i`.
pub open spec fn skip_blank(v: Seq<char>, i: int) -> int
    decreases v.len() - i,
{
    if 0 <= i < v.len() && is_whitespace(v[i]) {
        skip_blank(v, i + 1)
    } else {
        i
    }
}

/// Stepping back from `i` over whitespace chars, stopping at index 0.
pub open spec fn skip_blank_back(v: Seq<char>, i: int) -> int
    decreases i,
{
    if 0 < i < v.len() && is_whitespace(v[i]) {
        skip_blank_back(v, i - 1)
    } else {
        i
    }
}

/// The start of the run ending at `i` whose word-ness is `w`.
pub open spec fn class_start(v: Seq<char>, i: int, w: bool) -> int
    decreases i,
{
    if 0 < i <= v.len() && is_word_char(v[i - 1]) == w {
        class_start(v, i - 1, w)
    } else {
        i
    }
}

/// The last index of the run starting at `i` whose word-ness is `w`.
pub open spec fn class_end(v: Seq<char>, i: int, w: bool) -> int
    decreases v.len() - i,
{
    if 0 <= i && i + 1 < v.len() && is_word_char(v[i + 1]) == w {
        class_end(v, i + 1, w)
    } else {
        i
    }
}

/// The chars of a line's content.
pub open spec fn content(b: &Buffer, i: int) -> Seq<char> {
    line_content(b, i)
}

/// The first line from `l` on with a non-blank char, at that char.
pub open spec fn next_word_line(b: &Buffer, l: int) -> Option<Cursor>
    decreases crate::lines::line_count(b@) - l,
{
    if l < 0 || l >= crate::lines::line_count(b@) {
        None
    } else {
        match first_non_blank_from(content(b, l), 0) {
            Some(p) => Some(Cursor { line: l as usize, column: p as usize }),
            None => next_word_line(b, l + 1),
        }
    }
}

/// The cursor resting on the last char of the last line.
pub open spec fn buffer_end(b: &Buffer) -> Cursor {
    Cursor {
        line: last_line_index(b) as usize,
        column: last_column(b, last_line_index(b)) as usize,
    }
}

/// Where `w` goes: past the current run of word or non-word chars and the
/// whitespace after it on the same line, else to the first non-blank char of a
/// later line, else to the end of the buffer.
pub open spec fn word_forward_target(b: &Buffer, c: Cursor) -> Cursor {
    let v = content(b, c.line as int);
    let j = skip_blank(v, skip_class(v, c.column as int, is_word_char(v[c.column as int])));
    if c.column < v.len() && j < v.len() {
        Cursor { line: c.line, column: j as usize }
    } else {
        match next_word_line(b, c.line + 1) {
            Some(x) => x,
            None => buffer_end(b),
        }
    }
}

/// The chars of a line's content, as a vector.
fn line_chars(buf: &Buffer, line_index: usize) -> (v: Vec<char>)
    ensures
        v@ == content(buf, line_index as int),
{
    let s = buffer::get_line_content(buf, line_index);
    str_to_chars(s.as_str())
}

/// The cursor on the last char of the last line.
fn buffer_end_of(buf: &Buffer) -> (c: Cursor)
    ensures
        c == buffer_end(buf),
{
    let last_line = last_line_index_of(buf);
    let last_len = line_length_of(buf, last_line);
    Cursor {
        line: last_line,
        column: if last_len > 0 {
            last_len - 1
        } else {
            0
        },
    }
}

/// Moves the cursor forward to the start of the next word (vim `w`).
pub fn move_word_forward(cursor: Cursor, buf: &Buffer) -> (c: Cursor)
    requires
        cursor.line < usize::MAX,
    ensures
        c == word_forward_target(buf, cursor),
{
    let total_lines = buffer::line_count(buf);
    let mut line = cursor.line;
    let mut col = cursor.column;
    let chars = line_chars(buf, line);
    let ghost v = chars@;
    if col < chars.len() {
        let starting_is_word = word_char(chars[col]);
        while col < chars.len() && word_char(chars[col]) == starting_is_word
            invariant
                cursor.column <= col <= chars@.len(),
                cursor.column < chars@.len(),
                v == chars@,
                starting_is_word == is_word_char(v[cursor.column as int]),
                skip_class(v, cursor.column as int, starting_is_word) == skip_class(
                    v,
                    col as int,
                    starting_is_word,
                ),
            decreases chars@.len() - col,
        {
            col = col + 1;
        }
        let ghost after_class = col as int;
        while col < chars.len() && char_is_whitespace(chars[col])
            invariant
                after_class <= col <= chars@.len(),
                v == chars@,
                skip_blank(v, after_class) == skip_blank(v, col as int),
            decreases chars@.len() - col,
        {
            col = col + 1;
        }
        if col < chars.len() {
            return Cursor { line, column: col };
        }
    }
    line = line + 1;
    while line < total_lines
        invariant
            cursor.line + 1 <= line,
            total_lines == crate::lines::line_count(buf@),
            word_forward_target(buf, cursor) == (match next_word_line(buf, line as int) {
                Some(x) => x,
                None => buffer_end(buf),
            }),
        decreases total_lines - line,
    {
        let next = line_chars(buf, line);
        match first_non_blank(&next) {
            Some(pos) => return Cursor { line, column: pos },
            None => {},
        }
        line = line + 1;
    }
    buffer_end_of(buf)
}


/// Where `b` lands from a start index `i` on chars `v` of line `l`: back over
/// whitespace, then to the start of the run of word or non-word chars there.
pub open spec fn word_start_at(v: Seq<char>, l: int, i: int) -> Cursor {
    let j = skip_blank_back(v, i);
    Cursor { line: l as usize, column: class_start(v, j, is_word_char(v[j])) as usize }
}

/// Where `b` goes: to the start of the previous word, looking back from one
/// before the cursor (from the end of the previous line at column 0), and on
/// to the line before when only blanks lie behind.
pub open spec fn word_backward_target(b: &Buffer, c: Cursor) -> Cursor {
    if c.column == 0 && c.line == 0 {
        Cursor { line: 0, column: 0 }
    } else {
        let l1: int = if c.column == 0 { c.line - 1 } else { c.line as int };
        let v1 = content(b, l1);
        let c1: int = if c.column == 0 { v1.len() as int } else { c.column as int };
        let i1: int = if c1 > 0 { c1 - 1 } else { 0 };
        let j1 = skip_blank_back(v1, i1);
        if v1.len() == 0 || (j1 == 0 && is_whitespace(v1[0])) {
            if l1 == 0 {
                Cursor { line: 0, column: 0 }
            } else {
                let v2 = content(b, l1 - 1);
                if v2.len() == 0 {
                    Cursor { line: (l1 - 1) as usize, column: 0 }
                } else {
                    word_start_at(v2, l1 - 1, v2.len() - 1)
                }
            }
        } else {
            word_start_at(v1, l1, i1)
        }
    }
}

/// Lemma: stepping back over blanks from an index below the length stays below it.
proof fn lemma_skip_blank_back_bounds(v: Seq<char>, i: int)
    requires
        0 <= i < v.len(),
    ensures
        0 <= skip_blank_back(v, i) <= i,
        skip_blank_back(v, i) > 0 ==> !is_whitespace(v[skip_blank_back(v, i)]),
    decreases i,
{
    if 0 < i && is_whitespace(v[i]) {
        lemma_skip_blank_back_bounds(v, i - 1);
    }
}

/// Steps back over whitespace from `col` (not below 0), then back to the start
/// of the run of word or non-word chars there.
fn word_start_in(chars: &Vec<char>, line: usize, col: usize) -> (c: Cursor)
    requires
        col < chars@.len(),
    ensures
        c == word_start_at(chars@, line as int, col as int),
{
    let ghost v = chars@;
    let mut col = col;
    let ghost i0 = col as int;
    while col > 0 && char_is_whitespace(chars[col])
        invariant
            col < chars@.len(),
            v == chars@,
            skip_blank_back(v, i0) == skip_blank_back(v, col as int),
        decreases col,
    {
        col = col - 1;
    }
    let ghost j = col as int;
    let current_is_word = word_char(chars[col]);
    while col > 0 && word_char(chars[col - 1]) == current_is_word
        invariant
            col <= j < chars@.len(),
            v == chars@,
            current_is_word == is_word_char(v[j]),
            class_start(v, j, current_is_word) == class_start(v, col as int, current_is_word),
        decreases col,
    {
        col = col - 1;
    }
    Cursor { line, column: col }
}

/// Moves the cursor backward to the start of the previous word (vim `b`).
pub fn move_word_backward(cursor: Cursor, buf: &Buffer) -> (c: Cursor)
    requires
        cursor.column <= 1 || cursor.column <= content(buf, cursor.line as int).len(),
    ensures
        c == word_backward_target(buf, cursor),
{
    let mut line = cursor.line;
    let mut col = cursor.column;
    let mut chars = line_chars(buf, line);
    if col == 0 {
        if line == 0 {
            return Cursor { line: 0, column: 0 };
        }
        line = line - 1;
        chars = line_chars(buf, line);
        col = chars.len();
    }
    col = if col > 0 {
        col - 1
    } else {
        0
    };
    let look_from = col;
    let ghost i1 = col as int;
    let ghost v1 = chars@;
    while col > 0 && char_is_whitespace(chars[col])
        invariant
            col <= i1,
            i1 == 0 || i1 < chars@.len(),
            v1 == chars@,
            skip_blank_back(v1, i1) == skip_blank_back(v1, col as int),
        decreases col,
    {
        col = col - 1;
    }
    if chars.len() == 0 || (col == 0 && char_is_whitespace(chars[0])) {
        if line == 0 {
            return Cursor { line: 0, column: 0 };
        }
        line = line - 1;
        chars = line_chars(buf, line);
        if chars.len() == 0 {
            return Cursor { line, column: 0 };
        }
        return word_start_in(&chars, line, chars.len() - 1);
    }
    word_start_in(&chars, line, look_from)
}

/// The first non-blank position at or after column `col` of line `l`, going on
/// to column 0 of later lines; `None` when only blanks remain.
pub open spec fn next_non_blank(b: &Buffer, l: int, col: int) -> Option<(int, int)>
    decreases crate::lines::line_count(b@) - l,
{
    let v = content(b, l);
    let j = skip_blank(v, col);
    if j < v.len() {
        Some((l, j))
    } else if l + 1 >= crate::lines::line_count(b@) {
        None
    } else {
        next_non_blank(b, l + 1, 0)
    }
}

/// Where `e` goes: one step forward (when on a char), on over blanks across
/// lines, then to the last char of that run of word or non-word chars; the end
/// of the buffer when only blanks remain.
pub open spec fn word_end_target(b: &Buffer, c: Cursor) -> Cursor {
    let v = content(b, c.line as int);
    let start: int = if v.len() > 0 && c.column < v.len() { c.column + 1 } else { c.column as int };
    match next_non_blank(b, c.line as int, start) {
        Some(p) => {
            let w = content(b, p.0);
            Cursor { line: p.0 as usize, column: class_end(w, p.1, is_word_char(w[p.1])) as usize }
        },
        None => buffer_end(b),
    }
}

/// Moves the cursor to the end of the current or next word (vim `e`).
pub fn move_word_end(cursor: Cursor, buf: &Buffer) -> (c: Cursor)
    requires
        cursor.line < usize::MAX,
    ensures
        c == word_end_target(buf, cursor),
{
    let total_lines = buffer::line_count(buf);
    let mut line = cursor.line;
    let mut col = cursor.column;
    let mut chars = line_chars(buf, line);
    if chars.len() > 0 && col < chars.len() {
        col = col + 1;
    }
    let ghost start = col as int;
    loop
        invariant_except_break
            cursor.line <= line < usize::MAX,
            total_lines == crate::lines::line_count(buf@),
            chars@ == content(buf, line as int),
            next_non_blank(buf, cursor.line as int, start) == next_non_blank(buf, line as int, col as int),
            word_end_target(buf, cursor) == (match next_non_blank(buf, cursor.line as int, start) {
                Some(p) => {
                    let w = content(buf, p.0);
                    Cursor { line: p.0 as usize, column: class_end(w, p.1, is_word_char(w[p.1])) as usize }
                },
                None => buffer_end(buf),
            }),
        ensures
            col < chars@.len(),
            chars@ == content(buf, line as int),
            next_non_blank(buf, cursor.line as int, start) == Some((line as int, col as int)),
            word_end_target(buf, cursor) == (match next_non_blank(buf, cursor.line as int, start) {
                Some(p) => {
                    let w = content(buf, p.0);
                    Cursor { line: p.0 as usize, column: class_end(w, p.1, is_word_char(w[p.1])) as usize }
                },
                None => buffer_end(buf),
            }),
        decreases total_lines - line,
    {
        let ghost c0 = col as int;
        while col < chars.len() && char_is_whitespace(chars[col])
            invariant
                c0 <= col,
                skip_blank(chars@, c0) == skip_blank(chars@, col as int),
            decreases chars@.len() - col,
        {
            col = col + 1;
        }
        if col < chars.len() {
            break;
        }
        line = line + 1;
        if line >= total_lines {
            return buffer_end_of(buf);
        }
        chars = line_chars(buf, line);
        col = 0;
    }
    let ghost j = col as int;
    let current_is_word = word_char(chars[col]);
    let n = chars.len();
    while col + 1 < n && word_char(chars[col + 1]) == current_is_word
        invariant
            n == chars@.len(),
            j <= col < chars@.len(),
            current_is_word == is_word_char(chars@[j]),
            class_end(chars@, j, current_is_word) == class_end(chars@, col as int, current_is_word),
        decreases chars@.len() - col,
    {
        col = col + 1;
    }
    Cursor { line, column: col }
}


/// Clamping into the buffer lands inside it (on a line of the buffer, at most
/// at the end of that line) and is idempotent.
pub proof fn ensure_within_bounds_is_idempotent(b: &Buffer, c: Cursor)
    ensures
        0 <= bounded(b, c).line <= last_line_index(b),
        bounded(b, c).column <= line_length(b, bounded(b, c).line as int),
        bounded(b, bounded(b, c)) == bounded(b, c),
{
    lemma_line_count_positive(b@);
}

/// A cursor lies within the buffer: on one of its lines, at most one past
/// the end of that line's content.
pub open spec fn in_bounds(b: &Buffer, c: Cursor) -> bool {
    c.line <= last_line_index(b) && c.column <= line_length(b, c.line as int)
}

/// Movement is always clamped to the buffer's boundaries: from a cursor
/// within the buffer, moving up, down, left or right, to the start or end of
/// the line, or to the start or end of the document, leaves it within the
/// buffer; and clamping puts any cursor within it.
pub proof fn motions_stay_in_bounds(b: &Buffer, c: Cursor)
    requires
        in_bounds(b, c),
        last_line_index(b) < usize::MAX,
    ensures
        in_bounds(b, up_target(b, c)),
        in_bounds(b, down_target(b, c)),
        in_bounds(b, left_target(b, c)),
        in_bounds(b, right_target(b, c)),
        in_bounds(b, Cursor { line: c.line, column: 0 }),
        in_bounds(b, Cursor { line: c.line, column: last_column(b, c.line as int) as usize }),
        in_bounds(b, Cursor { line: c.line, column: line_length(b, c.line as int) as usize }),
        in_bounds(b, Cursor { line: 0, column: 0 }),
        in_bounds(b, Cursor { line: last_line_index(b) as usize, column: 0 }),
        forall|d: Cursor| in_bounds(b, #[trigger] bounded(b, d)),
{
    lemma_line_count_positive(b@);
    assert forall|i: int| line_length(b, i) >= 0 by {
        assert(byte_len(line_content(b, i)) >= 0);
    }
    assert forall|d: Cursor| in_bounds(b, #[trigger] bounded(b, d)) by {
        ensure_within_bounds_is_idempotent(b, d);
    }
}

proof fn lemma_skip_blank(v: Seq<char>, i: int)
    requires
        0 <= i,
    ensures
        i <= skip_blank(v, i),
        skip_blank(v, i) < v.len() ==> !is_whitespace(v[skip_blank(v, i)]),
        forall|j: int| i <= j < skip_blank(v, i) ==> is_whitespace(v[j]),
    decreases v.len() - i,
{
    if 0 <= i < v.len() && is_whitespace(v[i]) {
        lemma_skip_blank(v, i + 1);
    }
}

/// Where `next_non_blank` lands is the first non-blank char from column
/// `col` of line `l` on: everything skipped before it, on line `l` from `col`,
/// on the lines in between, and on its own line, is blank.
proof fn lemma_next_non_blank(b: &Buffer, l: int, col: int)
    requires
        0 <= col,
        0 <= l,
    ensures
        next_non_blank(b, l, col) matches Some(p) ==> {
            &&& l <= p.0 < crate::lines::line_count(b@)
            &&& 0 <= p.1 < content(b, p.0).len()
            &&& p.0 == l ==> col <= p.1
            &&& !is_whitespace(content(b, p.0)[p.1])
            &&& skipped_blank(b, l, col, p)
        },
        next_non_blank(b, l, col) is None ==> forall|m: int, j: int|
            l <= m < crate::lines::line_count(b@) && (if m == l { col } else { 0 }) <= j < content(b, m).len()
                ==> is_whitespace(#[trigger] content(b, m)[j]),
    decreases crate::lines::line_count(b@) - l,
{
    lemma_skip_blank(content(b, l), col);
    if skip_blank(content(b, l), col) >= content(b, l).len() && l + 1 < crate::lines::line_count(b@) {
        lemma_next_non_blank(b, l + 1, 0);
    }
}

/// Every char passed over from (`l`, `col`) to `p`, line by line, is blank.
pub open spec fn skipped_blank(b: &Buffer, l: int, col: int, p: (int, int)) -> bool {
    forall|m: int, j: int|
        l <= m <= p.0 && (if m == l { col } else { 0 }) <= j && (if m == p.0 { j < p.1 } else { j < content(b, m).len() })
            ==> is_whitespace(#[trigger] content(b, m)[j])
}

/// `class_end` from `i` is the last index of the run from `i` of chars whose
/// word-ness is `w`.
proof fn lemma_class_end(v: Seq<char>, i: int, w: bool)
    requires
        0 <= i < v.len(),
    ensures
        i <= class_end(v, i, w) < v.len(),
        forall|k: int| i < k <= class_end(v, i, w) ==> is_word_char(v[k]) == w,
        class_end(v, i, w) + 1 < v.len() ==> is_word_char(v[class_end(v, i, w) + 1]) != w,
    decreases v.len() - i,
{
    if i + 1 < v.len() && is_word_char(v[i + 1]) == w {
        lemma_class_end(v, i + 1, w);
    }
}

/// Where `e` (`move_word_end`) lands: on the first non-blank char after the
/// cursor (on its line or a later one) it finds the run of chars of that
/// char's word-ness (word chars, or other chars) and stops on the last char
/// of that run, so the next char of the line, if any, has the other
/// word-ness; everything it passed over before that char is blank. With only
/// blanks left, at the end of the buffer.
pub proof fn word_end_stops_at_the_end_of_a_run(b: &Buffer, c: Cursor)
    requires
        b@.len() < usize::MAX,
    ensures
        ({
            let v = content(b, c.line as int);
            let start: int = if v.len() > 0 && c.column < v.len() { c.column + 1 } else { c.column as int };
            let r = word_end_target(b, c);
            match next_non_blank(b, c.line as int, start) {
                Some(p) => {
                    let w = content(b, p.0);
                    &&& r.line == p.0
                    &&& p.1 <= r.column < w.len()
                    &&& !is_whitespace(w[p.1])
                    &&& (p.0 == c.line ==> start <= p.1)
                    &&& c.line <= p.0
                    &&& skipped_blank(b, c.line as int, start, p)
                    &&& forall|k: int| p.1 <= k <= r.column ==> is_word_char(#[trigger] w[k]) == is_word_char(w[p.1])
                    &&& r.column + 1 < w.len() ==> is_word_char(w[r.column + 1]) != is_word_char(w[p.1])
                },
                None => r == buffer_end(b) && forall|m: int, j: int|
                    c.line <= m < crate::lines::line_count(b@) && (if m == c.line { start } else { 0 }) <= j < content(b, m).len()
                        ==> is_whitespace(#[trigger] content(b, m)[j]),
            }
        }),
{
    let v = content(b, c.line as int);
    let start: int = if v.len() > 0 && c.column < v.len() { c.column + 1 } else { c.column as int };
    lemma_next_non_blank(b, c.line as int, start);
    match next_non_blank(b, c.line as int, start) {
        Some(p) => {
            let w = content(b, p.0);
            lemma_class_end(w, p.1, is_word_char(w[p.1]));
            lemma_content_len(b, p.0);
            crate::lines::lemma_line_count_bound(b@);
            assert forall|k: int| p.1 <= k <= word_end_target(b, c).column implies is_word_char(#[trigger] w[k])
                == is_word_char(w[p.1]) by {
                if k > p.1 {
                }
            }
        },
        None => {},
    }
}

/// A line's content is no longer than the buffer's text.
proof fn lemma_content_len(b: &Buffer, l: int)
    ensures
        content(b, l).len() <= b@.len(),
{
    if 0 <= l < crate::lines::line_count(b@) {
        crate::lines::lemma_line_range(b@, l);
        crate::lines::lemma_trim_newlines(crate::lines::line_text(b@, l));
    }
}
} // verus!
