//! Text objects: the vim ranges `iw`, `aw`, `i"`, `a"`, `i(`, `a(` around a
//! cursor. A range is a (start, end) pair of cursors, the end exclusive.
use crate::buffer::{self, Buffer};
use crate::cursor::{raw_line, Cursor};
use crate::lines::{line_count, trim_newlines};
use crate::rainbow_csv::csv_line_text;
use crate::text::{char_is_whitespace, is_whitespace, is_word_char, str_to_chars, word_char};
use vstd::prelude::*;

verus! {

/// Modifier for text objects: inside the object, or including its
/// delimiters or surrounding whitespace.
#[derive(Debug, Clone, Copy, PartialEq, Eq, Structural)]
pub enum TextObjectModifier {
    Inner,
    Around,
}

/// The chars of a line as text objects read it: without its trailing '\n's.
fn line_chars(buf: &Buffer, line_index: usize) -> (v: Vec<char>)
    ensures
        v@ == csv_line_text(buf, line_index as int),
{
    let raw = match buffer::get_line(buf, line_index) {
        Some(t) => t,
        None => String::new(),
    };
    proof {
        reveal_strlit("");
    }
    let chars = str_to_chars(raw.as_str());
    let mut k = chars.len();
    assert(chars@.subrange(0, chars@.len() as int) =~= chars@);
    while k > 0 && chars[k - 1] == '\n'
        invariant
            k <= chars@.len(),
            trim_newlines(chars@) == trim_newlines(chars@.subrange(0, k as int)),
        decreases k,
    {
        proof {
            assert(chars@.subrange(0, k as int).drop_last() =~= chars@.subrange(0, k - 1));
        }
        k = k - 1;
    }
    let mut v: Vec<char> = Vec::new();
    let mut i: usize = 0;
    while i < k
        invariant
            k <= chars@.len(),
            i <= k,
            v@ == chars@.subrange(0, i as int),
        decreases k - i,
    {
        v.push(chars[i]);
        assert(v@ =~= chars@.subrange(0, i + 1));
        i = i + 1;
    }
    proof {
        assert(trim_newlines(chars@.subrange(0, k as int)) == chars@.subrange(0, k as int));
    }
    v
}

/// The start of the whitespace run ending at `i` (stepping back from `i`).
pub open spec fn blank_start(v: Seq<char>, i: int) -> int
    decreases i,
{
    if 0 < i <= v.len() && is_whitespace(v[i - 1]) {
        blank_start(v, i - 1)
    } else {
        i
    }
}

/// The start of the run of non-blank chars of word-ness `w` ending at `i`.
pub open spec fn group_start(v: Seq<char>, i: int, w: bool) -> int
    decreases i,
{
    if 0 < i <= v.len() && is_word_char(v[i - 1]) == w && !is_whitespace(v[i - 1]) {
        group_start(v, i - 1, w)
    } else {
        i
    }
}

/// The last index of the whitespace run starting at `i`.
pub open spec fn blank_last(v: Seq<char>, i: int) -> int
    decreases v.len() - i,
{
    if 0 <= i && i + 1 < v.len() && is_whitespace(v[i + 1]) {
        blank_last(v, i + 1)
    } else {
        i
    }
}

/// The last index of the run of non-blank chars of word-ness `w` starting at `i`.
pub open spec fn group_last(v: Seq<char>, i: int, w: bool) -> int
    decreases v.len() - i,
{
    if 0 <= i && i + 1 < v.len() && is_word_char(v[i + 1]) == w && !is_whitespace(v[i + 1]) {
        group_last(v, i + 1, w)
    } else {
        i
    }
}

/// The `iw` range on chars `v` at column `col`: the whitespace run, or the run
/// of word (or of other non-blank) chars, under the column; as (start, end) columns.
pub open spec fn inner_word_cols(v: Seq<char>, col: int) -> Option<(int, int)> {
    if v.len() == 0 || col >= v.len() || col < 0 {
        None
    } else if is_whitespace(v[col]) {
        Some((blank_start(v, col), blank_last(v, col) + 1))
    } else {
        let w = is_word_char(v[col]);
        Some((group_start(v, col, w), group_last(v, col, w) + 1))
    }
}

proof fn lemma_run_bounds(v: Seq<char>, i: int, w: bool)
    requires
        0 <= i < v.len(),
    ensures
        0 <= blank_start(v, i) <= i,
        0 <= group_start(v, i, w) <= i,
        i <= blank_last(v, i) < v.len(),
        i <= group_last(v, i, w) < v.len(),
    decreases v.len(),
{
    lemma_starts(v, i, w);
    lemma_lasts(v, i, w);
}

proof fn lemma_starts(v: Seq<char>, i: int, w: bool)
    requires
        0 <= i <= v.len(),
    ensures
        0 <= blank_start(v, i) <= i,
        0 <= group_start(v, i, w) <= i,
    decreases i,
{
    if i > 0 {
        lemma_starts(v, i - 1, w);
    }
}

proof fn lemma_lasts(v: Seq<char>, i: int, w: bool)
    requires
        0 <= i < v.len(),
    ensures
        i <= blank_last(v, i) < v.len(),
        i <= group_last(v, i, w) < v.len(),
        i <= blank_end_after(v, i) <= v.len(),
    decreases v.len() - i,
{
    if i + 1 < v.len() {
        lemma_lasts(v, i + 1, w);
    } else {
        assert(blank_end_after(v, i + 1) == i + 1);
    }
}

/// The `iw` range lies on the line and holds the column.
proof fn lemma_inner_word_cols(v: Seq<char>, col: int)
    ensures
        inner_word_cols(v, col) matches Some(p) ==> 0 <= p.0 <= col < p.1 <= v.len(),
{
    if 0 <= col < v.len() {
        lemma_run_bounds(v, col, is_word_char(v[col]));
    }
}

/// A range on one line, from column `s` to column `e`.
pub open spec fn on_line(line: usize, s: int, e: int) -> (Cursor, Cursor) {
    (Cursor { line, column: s as usize }, Cursor { line, column: e as usize })
}

/// Computes the "inner word" range (`iw`): the word, the run of other
/// non-blank chars, or the whitespace run under the cursor; `None` when the
/// cursor is past the line's chars.
pub fn inner_word(cursor: Cursor, buf: &Buffer) -> (r: Option<(Cursor, Cursor)>)
    ensures
        r == (match inner_word_cols(csv_line_text(buf, cursor.line as int), cursor.column as int) {
            Some(p) => Some(on_line(cursor.line, p.0, p.1)),
            None => None,
        }),
{
    let chars = line_chars(buf, cursor.line);
    inner_word_in(&chars, cursor)
}

fn inner_word_in(chars: &Vec<char>, cursor: Cursor) -> (r: Option<(Cursor, Cursor)>)
    ensures
        r == (match inner_word_cols(chars@, cursor.column as int) {
            Some(p) => Some(on_line(cursor.line, p.0, p.1)),
            None => None,
        }),
        r matches Some(p) ==> p.0.column <= cursor.column < p.1.column <= chars@.len(),
{
    let n = chars.len();
    if n == 0 || cursor.column >= n {
        return None;
    }
    let col = cursor.column;
    let ghost v = chars@;
    let current_is_word = word_char(chars[col]);
    let current_is_whitespace = char_is_whitespace(chars[col]);
    let mut start = col;
    let mut end = col;
    if current_is_whitespace {
        while start > 0 && char_is_whitespace(chars[start - 1])
            invariant
                start <= col < n,
                n == v.len(),
                v == chars@,
                blank_start(v, col as int) == blank_start(v, start as int),
            decreases start,
        {
            start = start - 1;
        }
        while end + 1 < n && char_is_whitespace(chars[end + 1])
            invariant
                col <= end < n,
                n == v.len(),
                v == chars@,
                blank_last(v, col as int) == blank_last(v, end as int),
            decreases n - end,
        {
            end = end + 1;
        }
    } else {
        while start > 0 && word_char(chars[start - 1]) == current_is_word && !char_is_whitespace(chars[start - 1])
            invariant
                start <= col < n,
                n == v.len(),
                v == chars@,
                current_is_word == is_word_char(v[col as int]),
                group_start(v, col as int, current_is_word) == group_start(v, start as int, current_is_word),
            decreases start,
        {
            start = start - 1;
        }
        while end + 1 < n && word_char(chars[end + 1]) == current_is_word && !char_is_whitespace(chars[end + 1])
            invariant
                col <= end < n,
                n == v.len(),
                v == chars@,
                current_is_word == is_word_char(v[col as int]),
                group_last(v, col as int, current_is_word) == group_last(v, end as int, current_is_word),
            decreases n - end,
        {
            end = end + 1;
        }
    }
    Some((Cursor { line: cursor.line, column: start }, Cursor { line: cursor.line, column: end + 1 }))
}

/// The `aw` range: the `iw` range with the whitespace run after it, or, when
/// none follows, with the whitespace run before it.
pub open spec fn around_word_cols(v: Seq<char>, col: int) -> Option<(int, int)> {
    match inner_word_cols(v, col) {
        None => None,
        Some(p) => if p.1 < v.len() && is_whitespace(v[p.1]) {
            Some((p.0, blank_end_after(v, p.1)))
        } else if p.0 > 0 && is_whitespace(v[p.0 - 1]) {
            Some((blank_start(v, p.0), p.1))
        } else {
            Some(p)
        },
    }
}

/// The index after the whitespace run starting at `i`.
pub open spec fn blank_end_after(v: Seq<char>, i: int) -> int
    decreases v.len() - i,
{
    if 0 <= i < v.len() && is_whitespace(v[i]) {
        blank_end_after(v, i + 1)
    } else {
        i
    }
}

/// Computes the "around word" range (`aw`): the `iw` range with its trailing
/// whitespace, or its leading whitespace when none trails it.
pub fn around_word(cursor: Cursor, buf: &Buffer) -> (r: Option<(Cursor, Cursor)>)
    ensures
        r == (match around_word_cols(csv_line_text(buf, cursor.line as int), cursor.column as int) {
            Some(p) => Some(on_line(cursor.line, p.0, p.1)),
            None => None,
        }),
{
    let chars = line_chars(buf, cursor.line);
    proof {
        lemma_inner_word_cols(chars@, cursor.column as int);
    }
    let (word_start, word_end) = match inner_word_in(&chars, cursor) {
        Some(p) => p,
        None => {
            return None;
        },
    };
    let ghost v = chars@;
    let n = chars.len();
    let mut end = word_end.column;
    if end < n && char_is_whitespace(chars[end]) {
        while end < n && char_is_whitespace(chars[end])
            invariant
                word_end.column <= end <= n,
                n == v.len(),
                v == chars@,
                blank_end_after(v, word_end.column as int) == blank_end_after(v, end as int),
            decreases n - end,
        {
            end = end + 1;
        }
        proof {
            if end < n {
                lemma_lasts(v, end as int, true);
            }
        }
        return Some((word_start, Cursor { line: cursor.line, column: end }));
    }
    let mut start = word_start.column;
    if start > 0 && char_is_whitespace(chars[start - 1]) {
        while start > 0 && char_is_whitespace(chars[start - 1])
            invariant
                start <= word_start.column <= n,
                n == v.len(),
                v == chars@,
                blank_start(v, word_start.column as int) == blank_start(v, start as int),
            decreases start,
        {
            start = start - 1;
        }
        return Some((Cursor { line: cursor.line, column: start }, word_end));
    }
    Some((word_start, word_end))
}

/// The positions of `q` in `v`, in order.
pub open spec fn quote_positions(v: Seq<char>, q: char) -> Seq<int>
    decreases v.len(),
{
    if v.len() == 0 {
        Seq::empty()
    } else {
        let rest = quote_positions(v.drop_last(), q);
        if v.last() == q {
            rest.push(v.len() - 1)
        } else {
            rest
        }
    }
}

/// The first pair (positions 2k and 2k+1 of `ps`, from `k` on) enclosing `col`.
pub open spec fn enclosing_pair(ps: Seq<int>, col: int, k: int) -> Option<(int, int)>
    decreases ps.len() - k,
{
    if k < 0 || k + 1 >= ps.len() {
        None
    } else if ps[k] <= col <= ps[k + 1] {
        Some((ps[k], ps[k + 1]))
    } else {
        enclosing_pair(ps, col, k + 2)
    }
}

/// The pair of quotes around a column: quotes pair up in order along the
/// line, and the first pair whose span holds the column counts.
pub open spec fn quote_pair(v: Seq<char>, q: char, col: int) -> Option<(int, int)> {
    if v.len() == 0 {
        None
    } else {
        enclosing_pair(quote_positions(v, q), col, 0)
    }
}

proof fn lemma_quote_positions(v: Seq<char>, q: char)
    ensures
        forall|k: int| 0 <= k < quote_positions(v, q).len() ==> 0 <= #[trigger] quote_positions(v, q)[k] < v.len(),
        forall|k: int, l: int|
            0 <= k < l < quote_positions(v, q).len() ==> #[trigger] quote_positions(v, q)[k] < #[trigger] quote_positions(
                v,
                q,
            )[l],
    decreases v.len(),
{
    if v.len() > 0 {
        lemma_quote_positions(v.drop_last(), q);
        let rest = quote_positions(v.drop_last(), q);
        assert(quote_positions(v, q) == (if v.last() == q { rest.push(v.len() - 1) } else { rest }));
    }
}

/// The positions of `quote_char` in `chars`.
fn positions_of(chars: &Vec<char>, quote_char: char) -> (r: Vec<usize>)
    ensures
        r@.len() == quote_positions(chars@, quote_char).len(),
        forall|k: int| 0 <= k < r@.len() ==> r@[k] as int == #[trigger] quote_positions(chars@, quote_char)[k],
{
    let mut r: Vec<usize> = Vec::new();
    let mut i: usize = 0;
    while i < chars.len()
        invariant
            i <= chars@.len(),
            r@.len() == quote_positions(chars@.subrange(0, i as int), quote_char).len(),
            forall|k: int|
                0 <= k < r@.len() ==> r@[k] as int == #[trigger] quote_positions(chars@.subrange(0, i as int), quote_char)[k],
        decreases chars@.len() - i,
    {
        proof {
            assert(chars@.subrange(0, i + 1).drop_last() =~= chars@.subrange(0, i as int));
        }
        if chars[i] == quote_char {
            r.push(i);
        }
        i = i + 1;
    }
    proof {
        assert(chars@.subrange(0, i as int) =~= chars@);
    }
    r
}

/// Computes the "inner quotes" range (`i"`, `i'`): the text between the pair
/// of quotes around the cursor, on the cursor's line.
pub fn inner_quotes(cursor: Cursor, buf: &Buffer, quote_char: char) -> (r: Option<(Cursor, Cursor)>)
    ensures
        r == (match quote_pair(csv_line_text(buf, cursor.line as int), quote_char, cursor.column as int) {
            Some(p) => Some(on_line(cursor.line, p.0 + 1, p.1)),
            None => None,
        }),
        r matches Some(x) ==> quote_pair(csv_line_text(buf, cursor.line as int), quote_char, cursor.column as int)
            matches Some(p) && x.0.column == p.0 + 1 && x.1.column == p.1 && x.1.column < usize::MAX && p.0 >= 0,
{
    let chars = line_chars(buf, cursor.line);
    if chars.len() == 0 {
        return None;
    }
    let ps = positions_of(&chars, quote_char);
    let ghost qs = quote_positions(chars@, quote_char);
    proof {
        lemma_quote_positions(chars@, quote_char);
    }
    if ps.len() < 2 {
        return None;
    }
    let mut k: usize = 0;
    let n = chars.len();
    assert(quote_pair(chars@, quote_char, cursor.column as int) == enclosing_pair(qs, cursor.column as int, 0));
    while k < ps.len() - 1
        invariant
            ps@.len() == qs.len(),
            qs == quote_positions(chars@, quote_char),
            forall|t: int| 0 <= t < ps@.len() ==> ps@[t] as int == #[trigger] qs[t],
            forall|t: int| 0 <= t < qs.len() ==> 0 <= #[trigger] qs[t] < chars@.len(),
            k % 2 == 0,
            k <= ps@.len(),
            n == chars@.len(),
            chars@ == csv_line_text(buf, cursor.line as int),
            ps@.len() >= 2,
            quote_pair(chars@, quote_char, cursor.column as int) == enclosing_pair(qs, cursor.column as int, 0),
            enclosing_pair(qs, cursor.column as int, 0) == enclosing_pair(qs, cursor.column as int, k as int),
        decreases ps@.len() - k,
    {
        let o = ps[k];
        let c = ps[k + 1];
        if cursor.column >= o && cursor.column <= c {
            assert(enclosing_pair(qs, cursor.column as int, k as int) == Some((o as int, c as int)));
            return Some((Cursor { line: cursor.line, column: o + 1 }, Cursor { line: cursor.line, column: c }));
        }
        k = k + 2;
    }
    None
}

/// Computes the "around quotes" range (`a"`, `a'`): the `i"` range with the
/// quotes themselves.
pub fn around_quotes(cursor: Cursor, buf: &Buffer, quote_char: char) -> (r: Option<(Cursor, Cursor)>)
    ensures
        r == (match quote_pair(csv_line_text(buf, cursor.line as int), quote_char, cursor.column as int) {
            Some(p) => Some(on_line(cursor.line, p.0, p.1 + 1)),
            None => None,
        }),
{
    let (inner_start, inner_end) = match inner_quotes(cursor, buf, quote_char) {
        Some(p) => p,
        None => {
            return None;
        },
    };
    Some(
        (
            Cursor {
                line: cursor.line,
                column: if inner_start.column > 0 {
                    inner_start.column - 1
                } else {
                    0
                },
            },
            Cursor { line: cursor.line, column: inner_end.column + 1 },
        ),
    )
}


/// A line's chars with their (line, column) positions.
pub open spec fn flat_line(t: Seq<char>, l: int) -> Seq<(char, usize, usize)> {
    Seq::new(t.len(), |c: int| (t[c], l as usize, c as usize))
}

/// The chars of the first `n` lines (breaks
/// included) with their positions, in order.
pub open spec fn flat_upto(b: &Buffer, n: int) -> Seq<(char, usize, usize)>
    decreases n,
{
    if n <= 0 {
        Seq::empty()
    } else {
        flat_upto(b, n - 1) + flat_line(raw_line(b, n - 1), n - 1)
    }
}

/// The chars of the whole buffer with their positions.
pub open spec fn flat_chars(b: &Buffer) -> Seq<(char, usize, usize)> {
    flat_upto(b, line_count(b@))
}

/// The index in `flat_chars` of the char under the cursor, if there is one.
pub open spec fn flat_index(b: &Buffer, c: Cursor) -> Option<int> {
    if c.line < line_count(b@) && c.column < raw_line(b, c.line as int).len() {
        Some(flat_upto(b, c.line as int).len() + c.column)
    } else {
        None
    }
}

/// Scanning back from `i` for the `o` that opens the group holding `i`:
/// each `c` met opens a level that an `o` closes.
pub open spec fn open_back(f: Seq<(char, usize, usize)>, i: int, depth: int, o: char, c: char) -> Option<int>
    decreases i + 1,
{
    if i < 0 || i >= f.len() {
        None
    } else if f[i].0 == c {
        open_back(f, i - 1, depth + 1, o, c)
    } else if f[i].0 == o {
        if depth == 0 {
            Some(i)
        } else {
            open_back(f, i - 1, depth - 1, o, c)
        }
    } else {
        open_back(f, i - 1, depth, o, c)
    }
}

/// Scanning forward from `i` for the `c` that closes a group opened `depth`
/// levels up.
pub open spec fn close_fwd(f: Seq<(char, usize, usize)>, i: int, depth: int, o: char, c: char) -> Option<int>
    decreases f.len() - i,
{
    if i < 0 || i >= f.len() {
        None
    } else if f[i].0 == o {
        close_fwd(f, i + 1, depth + 1, o, c)
    } else if f[i].0 == c {
        if depth - 1 == 0 {
            Some(i)
        } else {
            close_fwd(f, i + 1, depth - 1, o, c)
        }
    } else {
        close_fwd(f, i + 1, depth, o, c)
    }
}

/// The indices of the brackets `o` ... `c` around the cursor: the cursor's own
/// `o` when it is on one, else the nearest unmatched `o` before it; and the `c`
/// that matches it.
pub open spec fn bracket_pair(b: &Buffer, cur: Cursor, o: char, c: char) -> Option<(int, int)> {
    let f = flat_chars(b);
    match flat_index(b, cur) {
        None => None,
        Some(ci) => {
            let open = if f[ci].0 == o { Some(ci) } else { open_back(f, ci, 0, o, c) };
            match open {
                None => None,
                Some(op) => match close_fwd(f, op + 1, 1, o, c) {
                    None => None,
                    Some(cl) => Some((op, cl)),
                },
            }
        },
    }
}

/// The cursor at flat index `k`.
pub open spec fn at_flat(f: Seq<(char, usize, usize)>, k: int) -> Cursor {
    Cursor { line: f[k].1, column: f[k].2 }
}

proof fn lemma_flat_prefix(b: &Buffer, m: int, n: int)
    requires
        0 <= m <= n,
    ensures
        flat_upto(b, m).len() <= flat_upto(b, n).len(),
        forall|k: int| 0 <= k < flat_upto(b, m).len() ==> flat_upto(b, n)[k] == #[trigger] flat_upto(b, m)[k],
    decreases n - m,
{
    if m < n {
        lemma_flat_prefix(b, m, n - 1);
    }
}

proof fn lemma_open_back_bounds(f: Seq<(char, usize, usize)>, i: int, depth: int, o: char, c: char)
    ensures
        open_back(f, i, depth, o, c) matches Some(k) ==> 0 <= k <= i && k < f.len(),
    decreases i + 1,
{
    if 0 <= i < f.len() {
        if f[i].0 == c {
            lemma_open_back_bounds(f, i - 1, depth + 1, o, c);
        } else if f[i].0 == o {
            if depth != 0 {
                lemma_open_back_bounds(f, i - 1, depth - 1, o, c);
            }
        } else {
            lemma_open_back_bounds(f, i - 1, depth, o, c);
        }
    }
}

proof fn lemma_close_fwd_bounds(f: Seq<(char, usize, usize)>, i: int, depth: int, o: char, c: char)
    ensures
        close_fwd(f, i, depth, o, c) matches Some(k) ==> 0 <= i <= k < f.len(),
    decreases f.len() - i,
{
    if 0 <= i < f.len() {
        if f[i].0 == o {
            lemma_close_fwd_bounds(f, i + 1, depth + 1, o, c);
        } else if f[i].0 == c {
            if depth - 1 != 0 {
                lemma_close_fwd_bounds(f, i + 1, depth - 1, o, c);
            }
        } else {
            lemma_close_fwd_bounds(f, i + 1, depth, o, c);
        }
    }
}

/// The buffer's chars with their positions, and the index of the cursor's char.
fn flatten(buf: &Buffer, cursor: Cursor) -> (r: (Vec<(char, usize, usize)>, Option<usize>))
    ensures
        r.0@ == flat_chars(buf),
        match flat_index(buf, cursor) {
            Some(k) => r.1 matches Some(x) && x as int == k,
            None => r.1 is None,
        },
        r.1 matches Some(k) ==> k < r.0@.len(),
{
    let total_lines = buffer::line_count(buf);
    let mut all: Vec<(char, usize, usize)> = Vec::new();
    let mut base: usize = 0;
    let mut cursor_line_len: usize = 0;
    let mut line_idx: usize = 0;
    while line_idx < total_lines
        invariant
            total_lines == line_count(buf@),
            line_idx <= total_lines,
            all@ == flat_upto(buf, line_idx as int),
            cursor.line < line_idx ==> base == flat_upto(buf, cursor.line as int).len() && cursor_line_len
                == raw_line(buf, cursor.line as int).len(),
        decreases total_lines - line_idx,
    {
        let raw = match buffer::get_line(buf, line_idx) {
            Some(t) => t,
            None => String::new(),
        };
        proof {
            reveal_strlit("");
        }
        let t = str_to_chars(raw.as_str());
        assert(t@ == raw_line(buf, line_idx as int));
        if line_idx == cursor.line {
            base = all.len();
            cursor_line_len = t.len();
        }
        let ghost before = all@;
        let mut col: usize = 0;
        while col < t.len()
            invariant
                col <= t@.len(),
                all@ == before + flat_line(t@, line_idx as int).subrange(0, col as int),
            decreases t@.len() - col,
        {
            all.push((t[col], line_idx, col));
            assert(all@ =~= before + flat_line(t@, line_idx as int).subrange(0, col + 1));
            col = col + 1;
        }
        assert(flat_line(t@, line_idx as int).subrange(0, t@.len() as int) =~= flat_line(t@, line_idx as int));
        line_idx = line_idx + 1;
    }
    if cursor.line < total_lines && cursor.column < cursor_line_len {
        proof {
            lemma_flat_prefix(buf, cursor.line as int + 1, total_lines as int);
            lemma_flat_prefix(buf, cursor.line as int, cursor.line as int + 1);
            assert(base + cursor.column < flat_upto(buf, cursor.line + 1).len());
        }
        let n_all = all.len();
        assert(base + cursor.column < n_all);
        (all, Some(base + cursor.column))
    } else {
        (all, None)
    }
}

/// The flat indices of the brackets around the cursor (see `bracket_pair`).
fn find_brackets(f: &Vec<(char, usize, usize)>, ci: usize, open_char: char, close_char: char) -> (r: Option<(usize, usize)>)
    requires
        ci < f@.len(),
    ensures
        ({
            let open = if f@[ci as int].0 == open_char { Some(ci as int) } else { open_back(f@, ci as int, 0, open_char, close_char) };
            match r {
                Some(p) => p.0 < p.1 < f@.len() && open == Some(p.0 as int) && close_fwd(f@, p.0 + 1, 1, open_char, close_char)
                    == Some(p.1 as int),
                None => match open {
                    None => true,
                    Some(op) => close_fwd(f@, op + 1, 1, open_char, close_char) is None,
                },
            }
        }),
{
    let _n = f.len();
    assert(f@.len() <= usize::MAX);
    let mut open_idx: Option<usize> = None;
    if f[ci].0 == open_char {
        open_idx = Some(ci);
    } else {
        let mut depth: usize = 0;
        let mut i: usize = ci + 1;
        while i > 0
            invariant_except_break
                open_idx is None,
            invariant
                i <= ci + 1,
                ci < f@.len(),
                f@.len() <= usize::MAX,
                depth <= ci + 1 - i,
                open_back(f@, ci as int, 0, open_char, close_char) == open_back(f@, i - 1, depth as int, open_char, close_char),
            ensures
                open_idx matches Some(k) ==> open_back(f@, ci as int, 0, open_char, close_char) == Some(k as int),
                open_idx is None ==> open_back(f@, ci as int, 0, open_char, close_char) is None,
            decreases i,
        {
            let ch = f[i - 1].0;
            if ch == close_char {
                depth = depth + 1;
            } else if ch == open_char {
                if depth == 0 {
                    open_idx = Some(i - 1);
                    break;
                }
                depth = depth - 1;
            }
            i = i - 1;
        }
    }
    let open_idx = match open_idx {
        Some(k) => k,
        None => {
            return None;
        },
    };
    proof {
        lemma_open_back_bounds(f@, ci as int, 0, open_char, close_char);
    }
    let mut depth: usize = 1;
    let mut i: usize = open_idx + 1;
    let n = f.len();
    while i < n
        invariant
            open_idx < n,
            n == f@.len(),
            open_idx + 1 <= i <= n,
            ci < n,
            (if f@[ci as int].0 == open_char { Some(ci as int) } else { open_back(f@, ci as int, 0, open_char, close_char) })
                == Some(open_idx as int),
            1 <= depth <= 1 + (i - open_idx - 1),
            close_fwd(f@, open_idx + 1, 1, open_char, close_char) == close_fwd(f@, i as int, depth as int, open_char, close_char),
        decreases n - i,
    {
        let ch = f[i].0;
        if ch == open_char {
            depth = depth + 1;
        } else if ch == close_char {
            depth = depth - 1;
            if depth == 0 {
                proof {
                    lemma_open_back_bounds(f@, ci as int, 0, open_char, close_char);
                }
                return Some((open_idx, i));
            }
        }
        i = i + 1;
    }
    None
}

/// The `i(` range of a bracket pair at flat indices `op`, `cl`: from the char
/// after the opening bracket to the closing bracket (both at the closing
/// bracket when nothing lies between).
pub open spec fn inner_bracket_range(f: Seq<(char, usize, usize)>, op: int, cl: int) -> (Cursor, Cursor) {
    let s = op + 1;
    if s >= f.len() || s > cl {
        (at_flat(f, cl), at_flat(f, cl))
    } else {
        (at_flat(f, s), at_flat(f, cl))
    }
}

/// Computes the "inner brackets" range (`i(`, `i[`, `i{`): the text between
/// the brackets around the cursor, nesting respected, across lines.
pub fn inner_parens(cursor: Cursor, buf: &Buffer, open_char: char, close_char: char) -> (r: Option<(Cursor, Cursor)>)
    ensures
        r == (match bracket_pair(buf, cursor, open_char, close_char) {
            Some(p) => Some(inner_bracket_range(flat_chars(buf), p.0, p.1)),
            None => None,
        }),
{
    let (all_chars, cursor_index) = flatten(buf, cursor);
    let ci = match cursor_index {
        Some(k) => k,
        None => {
            return None;
        },
    };
    let (open_idx, close_idx) = match find_brackets(&all_chars, ci, open_char, close_char) {
        Some(p) => p,
        None => {
            return None;
        },
    };
    proof {
        lemma_open_back_bounds(all_chars@, ci as int, 0, open_char, close_char);
        lemma_close_fwd_bounds(all_chars@, open_idx + 1, 1, open_char, close_char);
    }
    let inner_start_idx = open_idx + 1;
    let inner_end_idx = close_idx;
    if inner_start_idx >= all_chars.len() || inner_start_idx > inner_end_idx {
        let (_, cl_line, cl_col) = all_chars[close_idx];
        return Some((Cursor { line: cl_line, column: cl_col }, Cursor { line: cl_line, column: cl_col }));
    }
    let (_, start_line, start_col) = all_chars[inner_start_idx];
    let (_, end_line, end_col) = all_chars[inner_end_idx];
    Some((Cursor { line: start_line, column: start_col }, Cursor { line: end_line, column: end_col }))
}

/// Computes the "around brackets" range (`a(`, `a[`, `a{`): the brackets
/// around the cursor and the text between them.
pub fn around_parens(cursor: Cursor, buf: &Buffer, open_char: char, close_char: char) -> (r: Option<(Cursor, Cursor)>)
    ensures
        r == (match bracket_pair(buf, cursor, open_char, close_char) {
            Some(p) => Some(
                (
                    at_flat(flat_chars(buf), p.0),
                    Cursor { line: flat_chars(buf)[p.1].1, column: (flat_chars(buf)[p.1].2 + 1) as usize },
                ),
            ),
            None => None,
        }),
{
    let (all_chars, cursor_index) = flatten(buf, cursor);
    let ci = match cursor_index {
        Some(k) => k,
        None => {
            return None;
        },
    };
    let (open_idx, close_idx) = match find_brackets(&all_chars, ci, open_char, close_char) {
        Some(p) => p,
        None => {
            return None;
        },
    };
    proof {
        lemma_open_back_bounds(all_chars@, ci as int, 0, open_char, close_char);
        lemma_close_fwd_bounds(all_chars@, open_idx + 1, 1, open_char, close_char);
        lemma_flat_columns(buf, line_count(buf@));
        assert(all_chars@[close_idx as int].2 < all_chars@.len());
    }
    let (_, ol, oc) = all_chars[open_idx];
    let (_, cl, cc) = all_chars[close_idx];
    Some((Cursor { line: ol, column: oc }, Cursor { line: cl, column: cc + 1 }))
}

proof fn lemma_flat_columns(b: &Buffer, n: int)
    ensures
        forall|k: int| 0 <= k < flat_upto(b, n).len() ==> (#[trigger] flat_upto(b, n)[k]).2 < flat_upto(b, n).len(),
    decreases n,
{
    if n > 0 {
        lemma_flat_columns(b, n - 1);
        let prev = flat_upto(b, n - 1);
        let t = raw_line(b, n - 1);
        assert forall|k: int| 0 <= k < flat_upto(b, n).len() implies (#[trigger] flat_upto(b, n)[k]).2 < flat_upto(b, n).len() by {
            if k < prev.len() {
                assert(flat_upto(b, n)[k] == prev[k]);
            } else {
                assert(flat_upto(b, n)[k] == flat_line(t, n - 1)[k - prev.len()]);
            }
        }
    }
}

/// The weight of a char in counting brackets: 1 for `o`, -1 for `c`.
pub open spec fn bracket_weight(x: char, o: char, c: char) -> int {
    if x == o {
        1
    } else if x == c {
        -1
    } else {
        0
    }
}

/// The number of `o` less the number of `c` among `f[i..j]`.
pub open spec fn bracket_net(f: Seq<(char, usize, usize)>, i: int, j: int, o: char, c: char) -> int
    decreases j - i,
{
    if j <= i {
        0
    } else {
        bracket_net(f, i, j - 1, o, c) + bracket_weight(f[j - 1].0, o, c)
    }
}

proof fn lemma_net_split(f: Seq<(char, usize, usize)>, i: int, k: int, j: int, o: char, c: char)
    requires
        i <= k <= j,
    ensures
        bracket_net(f, i, j, o, c) == bracket_net(f, i, k, o, c) + bracket_net(f, k, j, o, c),
    decreases j - k,
{
    if k < j {
        lemma_net_split(f, i, k, j - 1, o, c);
    }
}

proof fn lemma_close_fwd_balanced(f: Seq<(char, usize, usize)>, i: int, d: int, o: char, c: char)
    requires
        o != c,
        0 <= i,
        d >= 1,
    ensures
        close_fwd(f, i, d, o, c) matches Some(cl) ==> {
            &&& i <= cl < f.len()
            &&& f[cl].0 == c
            &&& bracket_net(f, i, cl, o, c) == 1 - d
            &&& forall|k: int| i <= k <= cl ==> d + #[trigger] bracket_net(f, i, k, o, c) >= 1
        },
    decreases f.len() - i,
{
    if i < f.len() {
        let x = f[i].0;
        if x == o {
            lemma_close_fwd_balanced(f, i + 1, d + 1, o, c);
        } else if x == c && d - 1 != 0 {
            lemma_close_fwd_balanced(f, i + 1, d - 1, o, c);
        } else if x != c {
            lemma_close_fwd_balanced(f, i + 1, d, o, c);
        }
        if let Some(cl) = close_fwd(f, i, d, o, c) {
            assert(bracket_net(f, i, i, o, c) == 0);
            assert(bracket_net(f, i, i + 1, o, c) == bracket_weight(x, o, c));
            if cl > i {
                lemma_net_split(f, i, i + 1, cl, o, c);
                assert forall|k: int| i <= k <= cl implies d + #[trigger] bracket_net(f, i, k, o, c) >= 1 by {
                    if k > i {
                        lemma_net_split(f, i, i + 1, k, o, c);
                    }
                }
            }
        }
    }
}

proof fn lemma_open_back_balanced(f: Seq<(char, usize, usize)>, i: int, d: int, o: char, c: char)
    requires
        o != c,
        d >= 0,
    ensures
        open_back(f, i, d, o, c) matches Some(op) ==> {
            &&& 0 <= op <= i < f.len()
            &&& f[op].0 == o
            &&& bracket_net(f, op + 1, i + 1, o, c) == d
            &&& forall|k: int| op + 1 <= k <= i + 1 ==> #[trigger] bracket_net(f, k, i + 1, o, c) <= d
        },
    decreases i + 1,
{
    if 0 <= i < f.len() {
        let x = f[i].0;
        if x == c {
            lemma_open_back_balanced(f, i - 1, d + 1, o, c);
        } else if x == o && d != 0 {
            lemma_open_back_balanced(f, i - 1, d - 1, o, c);
        } else if x != o {
            lemma_open_back_balanced(f, i - 1, d, o, c);
        }
        if let Some(op) = open_back(f, i, d, o, c) {
            if op < i {
                assert forall|k: int| op + 1 <= k <= i + 1 implies #[trigger] bracket_net(f, k, i + 1, o, c) <= d by {
                    if k <= i {
                        assert(bracket_net(f, k, i + 1, o, c) == bracket_net(f, k, i, o, c) + bracket_weight(x, o, c));
                    }
                }
            }
        }
    }
}

/// The brackets that `i(` and `a(` take are a matching pair around the
/// cursor: an `o` at or before the char under the cursor and a `c` after
/// it, with the text between balanced (as many `o` as `c`, and no prefix of
/// it holding more `c` than `o`).
pub proof fn bracket_pair_is_balanced(b: &Buffer, cur: Cursor, o: char, c: char)
    requires
        o != c,
    ensures
        bracket_pair(b, cur, o, c) matches Some((op, cl)) ==> {
            let f = flat_chars(b);
            &&& flat_index(b, cur) matches Some(ci) && op <= ci < cl
            &&& 0 <= op && cl < f.len()
            &&& f[op].0 == o
            &&& f[cl].0 == c
            &&& bracket_net(f, op + 1, cl, o, c) == 0
            &&& forall|k: int| op + 1 <= k <= cl ==> #[trigger] bracket_net(f, op + 1, k, o, c) >= 0
        },
{
    let f = flat_chars(b);
    if let Some((op, cl)) = bracket_pair(b, cur, o, c) {
        let ci = flat_index(b, cur)->Some_0;
        if f[ci].0 != o {
            lemma_open_back_balanced(f, ci, 0, o, c);
        }
        assert(0 <= op <= ci < f.len());
        lemma_close_fwd_balanced(f, op + 1, 1, o, c);
        if f[ci].0 != o && cl <= ci {
            lemma_net_split(f, op + 1, cl, ci + 1, o, c);
            lemma_net_split(f, cl, cl + 1, ci + 1, o, c);
            assert(bracket_net(f, cl, cl, o, c) == 0);
            assert(bracket_net(f, cl, cl + 1, o, c) == -1);
            assert(bracket_net(f, cl + 1, ci + 1, o, c) <= 0);
        }
    }
}


/// The class of a char for word motions: 0 for White_Space, 1 for word
/// chars (alphanumeric or '_'), 2 for any other char.
pub open spec fn char_class(x: char) -> int {
    if is_whitespace(x) {
        0
    } else if is_word_char(x) {
        1
    } else {
        2
    }
}

/// The class of the chars that `group_start`/`group_last` with `w` step over.
pub open spec fn group_class(w: bool) -> int {
    if w {
        1
    } else {
        2
    }
}

proof fn lemma_blank_start_run(v: Seq<char>, i: int)
    requires
        0 <= i <= v.len(),
    ensures
        forall|k: int| blank_start(v, i) <= k < i ==> char_class(#[trigger] v[k]) == 0,
        blank_start(v, i) == 0 || char_class(v[blank_start(v, i) - 1]) != 0,
    decreases i,
{
    if 0 < i && is_whitespace(v[i - 1]) {
        lemma_blank_start_run(v, i - 1);
    }
}

proof fn lemma_group_start_run(v: Seq<char>, i: int, w: bool)
    requires
        0 <= i <= v.len(),
    ensures
        forall|k: int| group_start(v, i, w) <= k < i ==> char_class(#[trigger] v[k]) == group_class(w),
        group_start(v, i, w) == 0 || char_class(v[group_start(v, i, w) - 1]) != group_class(w),
    decreases i,
{
    if 0 < i && is_word_char(v[i - 1]) == w && !is_whitespace(v[i - 1]) {
        lemma_group_start_run(v, i - 1, w);
    }
}

proof fn lemma_blank_last_run(v: Seq<char>, i: int)
    requires
        0 <= i < v.len(),
    ensures
        forall|k: int| i < k <= blank_last(v, i) ==> char_class(#[trigger] v[k]) == 0,
        blank_last(v, i) + 1 == v.len() || char_class(v[blank_last(v, i) + 1]) != 0,
    decreases v.len() - i,
{
    if i + 1 < v.len() && is_whitespace(v[i + 1]) {
        lemma_blank_last_run(v, i + 1);
    }
}

proof fn lemma_group_last_run(v: Seq<char>, i: int, w: bool)
    requires
        0 <= i < v.len(),
    ensures
        forall|k: int| i < k <= group_last(v, i, w) ==> char_class(#[trigger] v[k]) == group_class(w),
        group_last(v, i, w) + 1 == v.len() || char_class(v[group_last(v, i, w) + 1]) != group_class(w),
    decreases v.len() - i,
{
    if i + 1 < v.len() && is_word_char(v[i + 1]) == w && !is_whitespace(v[i + 1]) {
        lemma_group_last_run(v, i + 1, w);
    }
}

/// `iw` takes the maximal run of chars of one class around the column: on a
/// line's chars `v`, no range past the chars, and else a range `s..e`
/// holding the column whose chars all have the class of the char under the
/// column, with a char of another class (or the line's edge) on each side.
pub proof fn inner_word_is_a_maximal_run(v: Seq<char>, col: int)
    ensures
        (col < 0 || col >= v.len()) <==> inner_word_cols(v, col) is None,
        inner_word_cols(v, col) matches Some((s, e)) ==> {
            &&& 0 <= s <= col < e <= v.len()
            &&& forall|k: int| s <= k < e ==> char_class(#[trigger] v[k]) == char_class(v[col])
            &&& s == 0 || char_class(v[s - 1]) != char_class(v[col])
            &&& e == v.len() || char_class(v[e]) != char_class(v[col])
        },
{
    lemma_inner_word_cols(v, col);
    if 0 <= col < v.len() {
        let w = is_word_char(v[col]);
        lemma_blank_start_run(v, col);
        lemma_blank_last_run(v, col);
        lemma_group_start_run(v, col, w);
        lemma_group_last_run(v, col, w);
        if !is_whitespace(v[col]) {
            assert(char_class(v[col]) == group_class(w));
        }
    }
}


/// The number of `q` chars in `s`.
pub open spec fn count_char(s: Seq<char>, q: char) -> nat
    decreases s.len(),
{
    if s.len() == 0 {
        0
    } else {
        count_char(s.drop_last(), q) + if s.last() == q { 1nat } else { 0nat }
    }
}

/// The `k`-th quote position holds a quote with `k` quotes before it.
proof fn lemma_quote_counts(v: Seq<char>, q: char)
    ensures
        forall|k: int|
            0 <= k < quote_positions(v, q).len() ==> 0 <= #[trigger] quote_positions(v, q)[k] < v.len() && v[quote_positions(
                v,
                q,
            )[k]] == q && count_char(v.subrange(0, quote_positions(v, q)[k]), q) == k,
    decreases v.len(),
{
    if v.len() > 0 {
        let u = v.drop_last();
        lemma_quote_counts(u, q);
        lemma_quote_positions(u, q);
        let rest = quote_positions(u, q);
        assert forall|k: int|
            0 <= k < quote_positions(v, q).len() implies 0 <= #[trigger] quote_positions(v, q)[k] < v.len() && v[quote_positions(
            v,
            q,
        )[k]] == q && count_char(v.subrange(0, quote_positions(v, q)[k]), q) == k by {
            if k < rest.len() {
                let p = rest[k];
                assert(quote_positions(v, q)[k] == p);
                assert(v.subrange(0, p) =~= u.subrange(0, p));
                assert(v[p] == u[p]);
            } else {
                assert(v.last() == q);
                assert(quote_positions(v, q)[k] == v.len() - 1);
                assert(v.subrange(0, v.len() - 1) =~= u);
                lemma_count_all_positions(u, q);
            }
        }
    }
}

/// All the `q` chars of `v` are its quote positions.
proof fn lemma_count_all_positions(v: Seq<char>, q: char)
    ensures
        count_char(v, q) == quote_positions(v, q).len(),
    decreases v.len(),
{
    if v.len() > 0 {
        lemma_count_all_positions(v.drop_last(), q);
    }
}

/// What `enclosing_pair` returns from an even index is a pair of positions
/// `2j` and `2j + 1` around `col`.
proof fn lemma_enclosing_pair_even(ps: Seq<int>, col: int, k: int)
    requires
        k >= 0,
        k % 2 == 0,
    ensures
        enclosing_pair(ps, col, k) matches Some(pr) ==> exists|j: int|
            #![trigger ps[j]]
            k <= j && j % 2 == 0 && j + 1 < ps.len() && pr == (ps[j], ps[j + 1]) && ps[j] <= col <= ps[j + 1],
    decreases ps.len() - k,
{
    if k + 1 < ps.len() && !(ps[k] <= col <= ps[k + 1]) {
        lemma_enclosing_pair_even(ps, col, k + 2);
    }
}

/// Every quote of `v` is listed, at the index of the number of quotes before it.
proof fn lemma_every_quote_listed(v: Seq<char>, q: char)
    ensures
        forall|i: int|
            0 <= i < v.len() && v[i] == q ==> count_char(#[trigger] v.subrange(0, i), q) < quote_positions(v, q).len()
                && quote_positions(v, q)[count_char(v.subrange(0, i), q) as int] == i,
    decreases v.len(),
{
    if v.len() > 0 {
        let u = v.drop_last();
        lemma_every_quote_listed(u, q);
        let rest = quote_positions(u, q);
        assert forall|i: int|
            0 <= i < v.len() && v[i] == q implies count_char(#[trigger] v.subrange(0, i), q) < quote_positions(v, q).len()
            && quote_positions(v, q)[count_char(v.subrange(0, i), q) as int] == i by {
            if i < v.len() - 1 {
                assert(v.subrange(0, i) =~= u.subrange(0, i));
                assert(u[i] == v[i]);
                assert(u.subrange(0, i) == u.subrange(0, i));
            } else {
                assert(v.subrange(0, i) =~= u);
                lemma_count_all_positions(u, q);
            }
        }
    }
}

/// From an even index `k`, `enclosing_pair` finds a pair when the pair at an
/// even index `j >= k` holds the column.
proof fn lemma_enclosing_pair_found(ps: Seq<int>, col: int, k: int, j: int)
    requires
        0 <= k <= j,
        k % 2 == 0,
        j % 2 == 0,
        j + 1 < ps.len(),
        ps[j] <= col <= ps[j + 1],
    ensures
        enclosing_pair(ps, col, k) is Some,
    decreases j - k,
{
    if !(ps[k] <= col <= ps[k + 1]) {
        lemma_enclosing_pair_found(ps, col, k + 2, j);
    }
}

/// The quotes that `inner_quotes` and `around_quotes` select pair up in order
/// along the line: the opening quote has an even number of quotes before it,
/// the closing one is the very next quote, and the column lies between them;
/// and there is no pair only when no such pair of quotes holds the column.
pub proof fn quote_pairs_go_in_order(v: Seq<char>, q: char, col: int)
    ensures
        quote_pair(v, q, col) matches Some((o, c)) ==> {
            &&& 0 <= o < c < v.len()
            &&& v[o] == q && v[c] == q
            &&& o <= col <= c
            &&& count_char(v.subrange(0, o), q) % 2 == 0
            &&& count_char(v.subrange(0, c), q) == count_char(v.subrange(0, o), q) + 1
        },
        quote_pair(v, q, col) is None ==> forall|o: int, c: int|
            0 <= o < c < v.len() && v[o] == q && v[c] == q && o <= col <= c && count_char(#[trigger] v.subrange(0, o), q)
                % 2 == 0 ==> count_char(#[trigger] v.subrange(0, c), q) != count_char(v.subrange(0, o), q) + 1,
{
    let ps = quote_positions(v, q);
    lemma_quote_counts(v, q);
    lemma_quote_positions(v, q);
    lemma_every_quote_listed(v, q);
    lemma_enclosing_pair_even(ps, col, 0);
    if let Some((o, c)) = quote_pair(v, q, col) {
        let j = choose|j: int|
            #![trigger ps[j]]
            0 <= j && j % 2 == 0 && j + 1 < ps.len() && (o, c) == (ps[j], ps[j + 1]) && ps[j] <= col <= ps[j + 1];
        assert(ps[j] < ps[j + 1]);
        assert(count_char(v.subrange(0, ps[j]), q) == j);
        assert(count_char(v.subrange(0, ps[j + 1]), q) == j + 1);
    } else {
        assert forall|o: int, c: int|
            0 <= o < c < v.len() && v[o] == q && v[c] == q && o <= col <= c && count_char(#[trigger] v.subrange(0, o), q)
                % 2 == 0 implies count_char(#[trigger] v.subrange(0, c), q) != count_char(v.subrange(0, o), q) + 1 by {
            let m = count_char(v.subrange(0, o), q) as int;
            if count_char(v.subrange(0, c), q) == m + 1 {
                assert(ps[m] == o);
                assert(ps[m + 1] == c);
                lemma_enclosing_pair_found(ps, col, 0, m);
                assert(v.len() > 0);
            }
        }
    }
}
} // verus!
