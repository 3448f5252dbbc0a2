//! Syntax highlighting: the languages known by file extension, and the pure
//! steps around the parser: byte offsets of lines, (row, column) points, the
//! edit between two versions of a text, per-line ranges of a highlighted node,
//! and the removal of overlapping ranges.
use crate::plugin::{lines_of, str_lines, string_views};
use crate::lines::byte_len;
use crate::str_map::StrMap;
use crate::text::{str_to_chars, string_push_str, to_string};
use crate::theme::ThemeColor;
use vstd::prelude::*;

verus! {

/// Whether `s` ends with `suffix`.
pub open spec fn ends_with(s: Seq<char>, suffix: Seq<char>) -> bool {
    suffix.len() <= s.len() && s.subrange(s.len() - suffix.len(), s.len() as int) == suffix
}

pub(crate) fn str_ends_with(s: &Vec<char>, suffix: &str) -> (b: bool)
    ensures
        b == ends_with(s@, suffix@),
{
    let t = str_to_chars(suffix);
    if t.len() > s.len() {
        return false;
    }
    let off = s.len() - t.len();
    let mut i: usize = 0;
    let n = t.len();
    while i < n
        invariant
            n == t@.len(),
            t@ == suffix@,
            off + t@.len() == s@.len(),
            off + n <= usize::MAX,
            i <= t@.len(),
            forall|j: int| 0 <= j < i ==> s@[off + j] == t@[j],
        decreases t@.len() - i,
    {
        if s[off + i] != t[i] {
            assert(s@.subrange(off as int, s@.len() as int)[i as int] != t@[i as int]);
            return false;
        }
        i = i + 1;
    }
    assert(s@.subrange(off as int, s@.len() as int) =~= t@);
    true
}

/// The language of a file name, by extension: "rust" for ".rs"; "python" for
/// ".py" and ".pyi"; "javascript" for ".js", ".mjs", ".cjs" and ".jsx".
pub open spec fn language_of(name: Seq<char>) -> Option<Seq<char>> {
    if ends_with(name, ".rs"@) {
        Some("rust"@)
    } else if ends_with(name, ".py"@) || ends_with(name, ".pyi"@) {
        Some("python"@)
    } else if ends_with(name, ".js"@) || ends_with(name, ".mjs"@) || ends_with(name, ".cjs"@) || ends_with(
        name,
        ".jsx"@,
    ) {
        Some("javascript"@)
    } else {
        None
    }
}

/// Detects the language of a file from its name's extension; `None` when the
/// extension is not one of a known language.
pub fn detect_language(filename: &str) -> (r: Option<&'static str>)
    ensures
        match language_of(filename@) {
            Some(id) => r matches Some(x) && x@ == id,
            None => r is None,
        },
{
    let name = str_to_chars(filename);
    if str_ends_with(&name, ".rs") {
        Some("rust")
    } else if str_ends_with(&name, ".py") || str_ends_with(&name, ".pyi") {
        Some("python")
    } else if str_ends_with(&name, ".js") || str_ends_with(&name, ".mjs") || str_ends_with(&name, ".cjs")
        || str_ends_with(&name, ".jsx") {
        Some("javascript")
    } else {
        None
    }
}

/// A single highlight range: a line, a byte column range on it, and the name
/// of the capture that matched.
#[derive(Debug, Clone, PartialEq, Eq)]
pub struct HighlightRange {
    pub line: usize,
    pub start_col: usize,
    pub end_col: usize,
    pub capture_name: String,
}

/// Describes a buffer edit for incremental parsing: byte offsets and
/// (row, column) positions of the edit's start and of its old and new ends.
#[derive(Debug, PartialEq, Eq)]
pub struct EditNotification {
    pub start_byte: usize,
    pub old_end_byte: usize,
    pub new_end_byte: usize,
    pub start_position: (usize, usize),
    pub old_end_position: (usize, usize),
    pub new_end_position: (usize, usize),
}

impl Clone for EditNotification {
    /// A copy with the same fields.
    fn clone(&self) -> (r: Self)
        ensures
            r == *self,
    {
        EditNotification {
            start_byte: self.start_byte,
            old_end_byte: self.old_end_byte,
            new_end_byte: self.new_end_byte,
            start_position: (self.start_position.0, self.start_position.1),
            old_end_position: (self.old_end_position.0, self.old_end_position.1),
            new_end_position: (self.new_end_position.0, self.new_end_position.1),
        }
    }
}

/// The index of the first '\n' byte of `b` at or after `i`.
pub open spec fn find_newline(b: Seq<u8>, i: int) -> Option<int>
    decreases b.len() - i,
{
    if i < 0 || i >= b.len() {
        None
    } else if b[i] == 10 {
        Some(i)
    } else {
        find_newline(b, i + 1)
    }
}

/// Where `find_newline` finds a newline, it lies at or after `i` within `b`.
pub proof fn lemma_find_newline_bounds(b: Seq<u8>, i: int)
    ensures
        find_newline(b, i) matches Some(p) ==> 0 <= i <= p < b.len() && b[p] == 10,
    decreases b.len() - i,
{
    if 0 <= i < b.len() && b[i] != 10 {
        lemma_find_newline_bounds(b, i + 1);
    }
}

/// The byte offset where line `line` starts, counting lines from byte `i`;
/// the length of `b` when there are fewer lines.
pub open spec fn line_start_from(b: Seq<u8>, line: nat, i: int) -> int
    decreases line,
{
    if line == 0 {
        i
    } else {
        match find_newline(b, i) {
            Some(p) => line_start_from(b, (line - 1) as nat, p + 1),
            None => b.len() as int,
        }
    }
}

/// Computes the byte offset of the start of a given line of the text; the
/// text's length in bytes when it has fewer lines.
pub fn line_to_byte_offset(source: &str, line: usize) -> (r: usize)
    ensures
        r == line_start_from(vstd::utf8::encode_utf8(source@), line as nat, 0),
{
    let b = source.as_bytes();
    let n = b.len();
    let mut i: usize = 0;
    let mut k: usize = 0;
    let mut from: usize = 0;
    let ghost bs = b@;
    while k < line
        invariant
            bs == b@,
            bs == vstd::utf8::encode_utf8(source@),
            n == bs.len(),
            from <= i <= n,
            k <= line,
            line_start_from(bs, line as nat, 0) == line_start_from(bs, (line - k) as nat, from as int),
            find_newline(bs, from as int) == find_newline(bs, i as int),
        decreases line - k, n - i,
    {
        if i >= n {
            proof {
                assert(find_newline(bs, from as int) is None);
                assert(line_start_from(bs, (line - k) as nat, from as int) == n);
            }
            return n;
        }
        if b[i] == 10 {
            k = k + 1;
            i = i + 1;
            from = i;
        } else {
            i = i + 1;
        }
    }
    from
}


/// The number of '\n' bytes in `b`.
pub open spec fn count_newlines(b: Seq<u8>) -> int
    decreases b.len(),
{
    if b.len() == 0 {
        0
    } else {
        count_newlines(b.drop_last()) + if b.last() == 10 { 1int } else { 0int }
    }
}

/// The offset just after the last '\n' byte of `b`, 0 when there is none.
pub open spec fn after_last_newline(b: Seq<u8>) -> int
    decreases b.len(),
{
    if b.len() == 0 {
        0
    } else if b.last() == 10 {
        b.len() as int
    } else {
        after_last_newline(b.drop_last())
    }
}

proof fn lemma_after_last_newline_bound(b: Seq<u8>)
    ensures
        0 <= after_last_newline(b) <= b.len(),
        0 <= count_newlines(b) <= b.len(),
    decreases b.len(),
{
    if b.len() > 0 {
        lemma_after_last_newline_bound(b.drop_last());
    }
}

/// The (row, column) point of byte `off` of `b` (clamped to its length): the
/// number of newlines before it, and its distance from the start of its line.
pub open spec fn point_of(b: Seq<u8>, off: int) -> (int, int) {
    let o = if off < b.len() { off } else { b.len() as int };
    let p = b.subrange(0, o);
    (count_newlines(p), o - after_last_newline(p))
}

/// Whether byte `off` of the text (clamped to its length) starts a char, so
/// that the text can be cut there.
pub open spec fn cut_ok(b: Seq<u8>, off: int) -> bool {
    vstd::utf8::is_char_boundary(b, if off < b.len() { off } else { b.len() as int })
}

/// Converts a byte offset in the text (clamped to its length) to a
/// (row, column) point, the column counted in bytes.
pub fn byte_offset_to_point(source: &str, byte_offset: usize) -> (r: (usize, usize))
    requires
        cut_ok(vstd::utf8::encode_utf8(source@), byte_offset as int),
    ensures
        (r.0 as int, r.1 as int) == point_of(vstd::utf8::encode_utf8(source@), byte_offset as int),
{
    let b = source.as_bytes();
    let ghost bs = b@;
    let o = if byte_offset < b.len() {
        byte_offset
    } else {
        b.len()
    };
    let mut row: usize = 0;
    let mut last: usize = 0;
    let mut i: usize = 0;
    assert(bs.subrange(0, 0) =~= Seq::<u8>::empty());
    while i < o
        invariant
            bs == b@,
            o <= bs.len(),
            i <= o,
            row as int == count_newlines(bs.subrange(0, i as int)),
            last as int == after_last_newline(bs.subrange(0, i as int)),
            row <= i,
        decreases o - i,
    {
        proof {
            assert(bs.subrange(0, i + 1).drop_last() =~= bs.subrange(0, i as int));
            lemma_after_last_newline_bound(bs.subrange(0, i as int));
        }
        if b[i] == 10 {
            row = row + 1;
            last = i + 1;
        }
        i = i + 1;
    }
    proof {
        lemma_after_last_newline_bound(bs.subrange(0, o as int));
    }
    (row, o - last)
}

/// The length of the common prefix of `a` and `b` from index `i` on, plus `i`.
pub open spec fn common_prefix(a: Seq<u8>, b: Seq<u8>, i: int) -> int
    decreases a.len() - i,
{
    if 0 <= i < a.len() && i < b.len() && a[i] == b[i] {
        common_prefix(a, b, i + 1)
    } else {
        i
    }
}

/// The number of equal bytes at the ends of `a[p..]` and `b[p..]`, counting from `k`.
pub open spec fn common_suffix(a: Seq<u8>, b: Seq<u8>, p: int, k: int) -> int
    decreases a.len() - p - k,
{
    if 0 <= k && k < a.len() - p && k < b.len() - p && a[a.len() - 1 - k] == b[b.len() - 1 - k] {
        common_suffix(a, b, p, k + 1)
    } else {
        k
    }
}

proof fn lemma_common_prefix(a: Seq<u8>, b: Seq<u8>, i: int)
    requires
        0 <= i <= a.len(),
        i <= b.len(),
    ensures
        i <= common_prefix(a, b, i) <= a.len(),
        common_prefix(a, b, i) <= b.len(),
    decreases a.len() - i,
{
    if i < a.len() && i < b.len() && a[i] == b[i] {
        lemma_common_prefix(a, b, i + 1);
    }
}

proof fn lemma_common_suffix(a: Seq<u8>, b: Seq<u8>, p: int, k: int)
    requires
        0 <= p <= a.len(),
        p <= b.len(),
        0 <= k <= a.len() - p,
        k <= b.len() - p,
    ensures
        k <= common_suffix(a, b, p, k) <= a.len() - p,
        common_suffix(a, b, p, k) <= b.len() - p,
    decreases a.len() - p - k,
{
    if k < a.len() - p && k < b.len() - p && a[a.len() - 1 - k] == b[b.len() - 1 - k] {
        lemma_common_suffix(a, b, p, k + 1);
    }
}

/// The edit between two texts (as bytes): from the first byte where they
/// differ to the last, in the old and in the new text.
pub open spec fn edit_between(a: Seq<u8>, b: Seq<u8>) -> (int, int, int) {
    let p = common_prefix(a, b, 0);
    let s = common_suffix(a, b, p, 0);
    (p, a.len() - s, b.len() - s)
}

/// Whether the points of an edit can be computed: the old text can be cut at
/// the edit's start and old end, and the new text at its new end.
pub open spec fn edit_cuts_ok(a: Seq<u8>, b: Seq<u8>) -> bool {
    let e = edit_between(a, b);
    cut_ok(a, e.0) && cut_ok(a, e.1) && cut_ok(b, e.2)
}

/// A point as the pair of machine integers a notification holds.
pub open spec fn point_usize(p: (int, int)) -> (usize, usize) {
    (p.0 as usize, p.1 as usize)
}

/// The edit that turns `old_text` into `new_text`, as a notification:
/// `None` when they are equal, else the bytes and points of the first
/// difference and of the old and new ends of the differing region.
pub open spec fn notified_edit(old_text: Seq<char>, new_text: Seq<char>) -> Option<EditNotification> {
    let a = vstd::utf8::encode_utf8(old_text);
    let b = vstd::utf8::encode_utf8(new_text);
    let e = edit_between(a, b);
    if a == b {
        None
    } else {
        Some(
            EditNotification {
                start_byte: e.0 as usize,
                old_end_byte: e.1 as usize,
                new_end_byte: e.2 as usize,
                start_position: point_usize(point_of(a, e.0)),
                old_end_position: point_usize(point_of(a, e.1)),
                new_end_position: point_usize(point_of(b, e.2)),
            },
        )
    }
}

/// Computes the edit that turns `old_source` into `new_source`: `None` when
/// they are equal, else the first differing byte, the old and new ends of the
/// differing region (past the longest common suffix after the common prefix),
/// and their (row, column) points.
pub fn compute_edit_notification(old_source: &str, new_source: &str) -> (r: Option<EditNotification>)
    requires
        edit_cuts_ok(vstd::utf8::encode_utf8(old_source@), vstd::utf8::encode_utf8(new_source@)),
    ensures
        ({
            let a = vstd::utf8::encode_utf8(old_source@);
            let b = vstd::utf8::encode_utf8(new_source@);
            let e = edit_between(a, b);
            if a == b {
                r is None
            } else {
                r matches Some(n) && n.start_byte == e.0 && n.old_end_byte == e.1 && n.new_end_byte == e.2
                    && (n.start_position.0 as int, n.start_position.1 as int) == point_of(a, e.0)
                    && (n.old_end_position.0 as int, n.old_end_position.1 as int) == point_of(a, e.1)
                    && (n.new_end_position.0 as int, n.new_end_position.1 as int) == point_of(b, e.2)
            }
        }),
        r == notified_edit(old_source@, new_source@),
{
    let a = old_source.as_bytes();
    let b = new_source.as_bytes();
    let ghost sa = a@;
    let ghost sb = b@;
    let mut p: usize = 0;
    while p < a.len() && p < b.len() && a[p] == b[p]
        invariant
            p <= sa.len(),
            p <= sb.len(),
            sa == a@,
            sb == b@,
            common_prefix(sa, sb, 0) == common_prefix(sa, sb, p as int),
            forall|t: int| 0 <= t < p ==> sa[t] == sb[t],
        decreases sa.len() - p,
    {
        p = p + 1;
    }
    if p == a.len() && p == b.len() {
        assert(sa =~= sb);
        return None;
    }
    proof {
        lemma_common_prefix(sa, sb, 0);
        if sa == sb {
            assert(sa[p as int] == sb[p as int]);
        }
    }
    let mut k: usize = 0;
    while k < a.len() - p && k < b.len() - p && a[a.len() - 1 - k] == b[b.len() - 1 - k]
        invariant
            p <= sa.len(),
            p <= sb.len(),
            sa == a@,
            sb == b@,
            k <= sa.len() - p,
            k <= sb.len() - p,
            common_suffix(sa, sb, p as int, 0) == common_suffix(sa, sb, p as int, k as int),
        decreases sa.len() - p - k,
    {
        k = k + 1;
    }
    let old_end = a.len() - k;
    let new_end = b.len() - k;
    let start_pos = byte_offset_to_point(old_source, p);
    let old_end_pos = byte_offset_to_point(old_source, old_end);
    let new_end_pos = byte_offset_to_point(new_source, new_end);
    Some(
        EditNotification {
            start_byte: p,
            old_end_byte: old_end,
            new_end_byte: new_end,
            start_position: start_pos,
            old_end_position: old_end_pos,
            new_end_position: new_end_pos,
        },
    )
}

/// Whether two ranges lie on the same line and overlap.
pub open spec fn overlaps(x: HighlightRange, y: HighlightRange) -> bool {
    x.line == y.line && x.start_col < y.end_col && y.start_col < x.end_col
}

/// The ranges of `s` that overlap no earlier kept range, in order.
pub open spec fn deduplicated(s: Seq<HighlightRange>) -> Seq<HighlightRange>
    decreases s.len(),
{
    if s.len() == 0 {
        Seq::empty()
    } else {
        let kept = deduplicated(s.drop_last());
        if exists|i: int| 0 <= i < kept.len() && overlaps(#[trigger] kept[i], s.last()) {
            kept
        } else {
            kept.push(s.last())
        }
    }
}

/// Removes overlapping ranges, keeping the first one encountered of each
/// overlapping group (the highest-priority capture in query order).
pub fn deduplicate_ranges(sorted_ranges: Vec<HighlightRange>) -> (r: Vec<HighlightRange>)
    ensures
        r@ == deduplicated(sorted_ranges@),
{
    let ghost src = sorted_ranges@;
    let mut rest = sorted_ranges;
    let mut result: Vec<HighlightRange> = Vec::new();
    let ghost mut j: int = 0;
    assert(src.subrange(0, 0) =~= Seq::<HighlightRange>::empty());
    assert(src.subrange(0, src.len() as int) =~= src);
    while rest.len() > 0
        invariant
            0 <= j <= src.len(),
            rest@ == src.subrange(j, src.len() as int),
            result@ == deduplicated(src.subrange(0, j)),
        decreases rest@.len(),
    {
        let range = rest.remove(0);
        let mut overlap = false;
        let mut i: usize = 0;
        while i < result.len()
            invariant
                i <= result@.len(),
                overlap == exists|t: int| 0 <= t < i && overlaps(#[trigger] result@[t], range),
            decreases result@.len() - i,
        {
            let e = &result[i];
            if e.line == range.line && e.start_col < range.end_col && range.start_col < e.end_col {
                overlap = true;
            }
            i = i + 1;
        }
        proof {
            assert(src[j] == range);
            assert(src.subrange(0, j + 1).drop_last() =~= src.subrange(0, j));
            assert(rest@ =~= src.subrange(j + 1, src.len() as int));
        }
        if !overlap {
            result.push(range);
        }
        proof {
            j = j + 1;
        }
    }
    proof {
        assert(src.subrange(0, j) =~= src);
    }
    result
}

/// The byte length of line `i` of `ls`, 0 past the last line.
pub open spec fn line_len_at(ls: Seq<Seq<char>>, i: int) -> int {
    if 0 <= i < ls.len() {
        byte_len(ls[i])
    } else {
        0
    }
}

/// The per-line (line, start column, end column) pieces of a node from
/// (`sr`, `sc`) to (`er`, `ec`): one piece on a single line; else the rest of
/// the first line, every middle line whole, and the start of the last line up
/// to `ec` when `ec` is not 0.
pub open spec fn node_pieces(ls: Seq<Seq<char>>, sr: int, sc: int, er: int, ec: int) -> Seq<(int, int, int)> {
    if sr == er {
        seq![(sr, sc, ec)]
    } else {
        let middle = if er - sr - 1 > 0 { (er - sr - 1) as nat } else { 0nat };
        seq![(sr, sc, line_len_at(ls, sr))] + Seq::new(middle, |k: int| (sr + 1 + k, 0, line_len_at(ls, sr + 1 + k)))
            + if ec > 0 { seq![(er, 0, ec)] } else { Seq::empty() }
    }
}

/// The (line, start, end) of each range.
pub open spec fn range_pieces(v: Seq<HighlightRange>) -> Seq<(int, int, int)> {
    v.map_values(|r: HighlightRange| (r.line as int, r.start_col as int, r.end_col as int))
}

fn line_len_of(lines: &Vec<String>, i: usize) -> (n: usize)
    ensures
        n == line_len_at(string_views(lines@), i as int),
{
    if i < lines.len() {
        proof {
            assert(string_views(lines@)[i as int] == lines@[i as int]@);
        }
        let s = lines[i].as_str();
        s.as_bytes().len()
    } else {
        0
    }
}

/// Splits a node spanning `start` to `end` ((row, column) points) into
/// per-line ranges carrying the capture name (see `node_pieces`).
pub fn split_node_into_line_ranges(source: &str, start: (usize, usize), end: (usize, usize), capture_name: &str) -> (r:
    Vec<HighlightRange>)
    requires
        start.0 == end.0 || start.0 < usize::MAX,
    ensures
        range_pieces(r@) == node_pieces(lines_of(source@), start.0 as int, start.1 as int, end.0 as int, end.1 as int),
        forall|i: int| 0 <= i < r@.len() ==> (#[trigger] r@[i]).capture_name@ == capture_name@,
{
    let mut ranges: Vec<HighlightRange> = Vec::new();
    let lines = str_lines(source);
    let ghost ls = lines_of(source@);
    if start.0 == end.0 {
        ranges.push(HighlightRange { line: start.0, start_col: start.1, end_col: end.1, capture_name: to_string(capture_name) });
        assert(range_pieces(ranges@) =~= seq![(start.0 as int, start.1 as int, end.1 as int)]);
        return ranges;
    }
    let first_len = line_len_of(&lines, start.0);
    ranges.push(HighlightRange { line: start.0, start_col: start.1, end_col: first_len, capture_name: to_string(capture_name) });
    let ghost sr = start.0 as int;
    let ghost er = end.0 as int;
    let mut line_idx = start.0 + 1;
    let ghost head = seq![(sr, start.1 as int, line_len_at(ls, sr))];
    assert(range_pieces(ranges@) =~= head);
    while line_idx < end.0
        invariant
            sr + 1 <= line_idx,
            line_idx <= er || line_idx == sr + 1,
            sr == start.0,
            er == end.0,
            sr != er,
            string_views(lines@) == ls,
            range_pieces(ranges@) == head + Seq::new(
                (line_idx - sr - 1) as nat,
                |k: int| (sr + 1 + k, 0, line_len_at(ls, sr + 1 + k)),
            ),
            forall|i: int| 0 <= i < ranges@.len() ==> (#[trigger] ranges@[i]).capture_name@ == capture_name@,
        decreases end.0 - line_idx,
    {
        let len = line_len_of(&lines, line_idx);
        ranges.push(HighlightRange { line: line_idx, start_col: 0, end_col: len, capture_name: to_string(capture_name) });
        proof {
            let f = |k: int| (sr + 1 + k, 0, line_len_at(ls, sr + 1 + k));
            let m = (line_idx - sr - 1) as nat;
            assert(Seq::new(m + 1, f) =~= Seq::new(m, f).push(f(m as int)));
            assert(range_pieces(ranges@) =~= (head + Seq::new(m, f)).push(f(m as int)));
            assert(range_pieces(ranges@) =~= head + Seq::new(m + 1, f));
        }
        line_idx = line_idx + 1;
    }
    let ghost mid = Seq::new(
        (if er - sr - 1 > 0 { (er - sr - 1) as nat } else { 0nat }),
        |k: int| (sr + 1 + k, 0, line_len_at(ls, sr + 1 + k)),
    );
    assert(range_pieces(ranges@) =~= head + mid);
    if end.1 > 0 {
        ranges.push(HighlightRange { line: end.0, start_col: 0, end_col: end.1, capture_name: to_string(capture_name) });
        assert(range_pieces(ranges@) =~= head + mid + seq![(er, 0, end.1 as int)]);
    } else {
        assert(range_pieces(ranges@) =~= head + mid + Seq::<(int, int, int)>::empty());
    }
    ranges
}

/// The theme slot of a capture name: "syntax-" followed by the name.
pub open spec fn theme_slot(capture: Seq<char>) -> Seq<char> {
    "syntax-"@ + capture
}

/// Maps a capture name (e.g. "keyword") to its theme slot ("syntax-keyword").
pub fn resolve_theme_slot(capture_name: &str) -> (s: String)
    ensures
        s@ == theme_slot(capture_name@),
{
    let mut s = to_string("syntax-");
    string_push_str(&mut s, capture_name);
    s
}

/// The color of a capture name in a theme: the color of its own slot, else
/// (for a name with a '.') the color of the slot of the part before the first
/// '.', else none.
pub open spec fn capture_color(capture: Seq<char>, theme: Map<Seq<char>, ThemeColor>) -> Option<ThemeColor> {
    if theme.contains_key(theme_slot(capture)) {
        Some(theme[theme_slot(capture)])
    } else {
        match crate::plugin::find_char(capture, '.', 0) {
            Some(p) => if theme.contains_key(theme_slot(capture.subrange(0, p))) {
                Some(theme[theme_slot(capture.subrange(0, p))])
            } else {
                None
            },
            None => None,
        }
    }
}

/// Resolves a capture name to a theme color, falling back from a sub-capture
/// ("function.method") to its parent ("function").
pub fn resolve_color(capture_name: &str, theme: &StrMap<ThemeColor>) -> (r: Option<ThemeColor>)
    ensures
        r == capture_color(capture_name@, theme@),
{
    let slot = resolve_theme_slot(capture_name);
    match theme.get(slot.as_str()) {
        Some(c) => {
            return Some(*c);
        },
        None => {},
    }
    let chars = str_to_chars(capture_name);
    let mut i: usize = 0;
    while i < chars.len()
        invariant
            i <= chars@.len(),
            chars@ == capture_name@,
            !theme@.contains_key(theme_slot(capture_name@)),
            crate::plugin::find_char(chars@, '.', 0) == crate::plugin::find_char(chars@, '.', i as int),
        decreases chars@.len() - i,
    {
        if chars[i] == '.' {
            let parent = crate::text::chars_to_string(chars.as_slice(), 0, i);
            let parent_slot = resolve_theme_slot(parent.as_str());
            assert(crate::plugin::find_char(chars@, '.', 0) == Some(i as int));
            return match theme.get(parent_slot.as_str()) {
                Some(c) => Some(*c),
                None => None,
            };
        }
        i = i + 1;
    }
    None
}

/// The newlines of `b` before byte `j`.
pub open spec fn newlines_before(b: Seq<u8>, j: int) -> int {
    count_newlines(b.subrange(0, j))
}

proof fn lemma_newlines_step(b: Seq<u8>, j: int)
    requires
        0 <= j < b.len(),
    ensures
        newlines_before(b, j + 1) == newlines_before(b, j) + if b[j] == 10 { 1int } else { 0int },
        b[j] == 10 ==> after_last_newline(b.subrange(0, j + 1)) == j + 1,
{
    assert(b.subrange(0, j + 1).drop_last() =~= b.subrange(0, j));
}

proof fn lemma_newlines_bounded(b: Seq<u8>, j: int)
    requires
        0 <= j <= b.len(),
    ensures
        newlines_before(b, j) <= newlines_before(b, b.len() as int),
    decreases b.len() - j,
{
    if j < b.len() {
        lemma_newlines_step(b, j);
        lemma_newlines_bounded(b, j + 1);
    }
}

/// From `i`, the newline that `find_newline` finds is the next one: no
/// newline lies between, so the count rises by one past it; with none found,
/// no newline lies after `i`.
proof fn lemma_find_newline_count(b: Seq<u8>, i: int)
    requires
        0 <= i <= b.len(),
    ensures
        find_newline(b, i) matches Some(p) ==> i <= p < b.len() && b[p] == 10 && newlines_before(b, p + 1) == newlines_before(b, i) + 1
            && after_last_newline(b.subrange(0, p + 1)) == p + 1,
        find_newline(b, i) is None ==> newlines_before(b, b.len() as int) == newlines_before(b, i),
    decreases b.len() - i,
{
    if i < b.len() {
        lemma_newlines_step(b, i);
        if b[i] != 10 {
            lemma_find_newline_count(b, i + 1);
        }
    }
}

proof fn lemma_line_start_point(b: Seq<u8>, m: nat, i: int)
    requires
        0 <= i <= b.len(),
        i == 0 || b[i - 1] == 10,
        m <= newlines_before(b, b.len() as int) - newlines_before(b, i),
    ensures
        point_of(b, line_start_from(b, m, i)) == (newlines_before(b, i) + m, 0int),
    decreases m,
{
    if m == 0 {
        if i == 0 {
            assert(b.subrange(0, 0) =~= Seq::<u8>::empty());
        } else {
            lemma_newlines_step(b, i - 1);
        }
    } else {
        lemma_find_newline_count(b, i);
        match find_newline(b, i) {
            Some(p) => {
                lemma_line_start_point(b, (m - 1) as nat, p + 1);
            },
            None => {},
        }
    }
}

/// Converting a line to its byte offset and back gives the line's start:
/// for every line `l` of the text (`l` at most its number of newlines), the
/// point of `line_to_byte_offset(s, l)` is `(l, 0)`.
pub proof fn line_offset_reads_back_as_point(b: Seq<u8>, l: nat)
    requires
        l <= count_newlines(b),
    ensures
        point_of(b, line_start_from(b, l, 0)) == (l as int, 0int),
{
    assert(b.subrange(0, b.len() as int) =~= b);
    assert(b.subrange(0, 0) =~= Seq::<u8>::empty());
    lemma_line_start_point(b, l, 0);
}


proof fn lemma_common_prefix_equal(a: Seq<u8>, b: Seq<u8>, i: int)
    requires
        0 <= i <= a.len(),
        i <= b.len(),
        forall|t: int| 0 <= t < i ==> a[t] == b[t],
    ensures
        forall|t: int| 0 <= t < common_prefix(a, b, i) ==> a[t] == b[t],
        common_prefix(a, b, i) == a.len() || common_prefix(a, b, i) == b.len() || a[common_prefix(a, b, i)]
            != b[common_prefix(a, b, i)],
    decreases a.len() - i,
{
    if i < a.len() && i < b.len() && a[i] == b[i] {
        lemma_common_prefix_equal(a, b, i + 1);
    }
}

/// The `t`-th bytes from the ends of `a` and `b` are equal.
pub open spec fn tail_eq(a: Seq<u8>, b: Seq<u8>, t: int) -> bool {
    a[a.len() - 1 - t] == b[b.len() - 1 - t]
}

proof fn lemma_common_suffix_equal(a: Seq<u8>, b: Seq<u8>, p: int, k: int)
    requires
        0 <= p <= a.len(),
        p <= b.len(),
        0 <= k <= a.len() - p,
        k <= b.len() - p,
        forall|t: int| 0 <= t < k ==> #[trigger] tail_eq(a, b, t),
    ensures
        forall|t: int| 0 <= t < common_suffix(a, b, p, k) ==> #[trigger] tail_eq(a, b, t),
    decreases a.len() - p - k,
{
    if k < a.len() - p && k < b.len() - p && a[a.len() - 1 - k] == b[b.len() - 1 - k] {
        lemma_common_suffix_equal(a, b, p, k + 1);
    }
}

/// The edit between two texts is the differing middle: it starts at the
/// longest common prefix, the texts agree after its old and new ends, and
/// the new text is the old prefix, the new middle and the old tail.
pub proof fn edit_between_is_the_differing_middle(a: Seq<u8>, b: Seq<u8>)
    ensures
        ({
            let e = edit_between(a, b);
            &&& a.subrange(0, e.0) == b.subrange(0, e.0)
            &&& (e.0 == a.len() || e.0 == b.len() || a[e.0] != b[e.0])
            &&& 0 <= e.0 <= e.1 <= a.len()
            &&& e.0 <= e.2 <= b.len()
            &&& a.subrange(e.1, a.len() as int) == b.subrange(e.2, b.len() as int)
            &&& b == a.subrange(0, e.0) + b.subrange(e.0, e.2) + a.subrange(e.1, a.len() as int)
        }),
{
    let e = edit_between(a, b);
    lemma_common_prefix(a, b, 0);
    lemma_common_prefix_equal(a, b, 0);
    let p = e.0;
    lemma_common_suffix(a, b, p, 0);
    lemma_common_suffix_equal(a, b, p, 0);
    let s = common_suffix(a, b, p, 0);
    assert(a.subrange(0, p) =~= b.subrange(0, p));
    assert(a.subrange(e.1, a.len() as int) =~= b.subrange(e.2, b.len() as int)) by {
        assert forall|t: int| 0 <= t < s implies a.subrange(e.1, a.len() as int)[t] == b.subrange(e.2, b.len() as int)[t] by {
            let u = s - 1 - t;
            assert(tail_eq(a, b, u));
        }
    }
    assert(b =~= a.subrange(0, p) + b.subrange(p, e.2) + a.subrange(e.1, a.len() as int)) by {
        assert forall|t: int| 0 <= t < b.len() implies b[t] == (a.subrange(0, p) + b.subrange(p, e.2) + a.subrange(
            e.1,
            a.len() as int,
        ))[t] by {
            if t >= e.2 {
                let u = b.len() - 1 - t;
                assert(tail_eq(a, b, u));
            }
        }
    }
}


/// One step of `deduplicated` over the prefixes of `s`: the range at `j` is
/// kept after those kept before it, or left out because it overlaps one of
/// them.
pub open spec fn dedup_step(s: Seq<HighlightRange>, j: int) -> bool {
    let before = deduplicated(s.subrange(0, j));
    let after = deduplicated(s.subrange(0, j + 1));
    ||| after == before.push(s[j])
    ||| after == before && exists|i: int| 0 <= i < before.len() && overlaps(#[trigger] before[i], s[j])
}

proof fn lemma_dedup_prefix(s: Seq<HighlightRange>, j: int)
    requires
        0 <= j <= s.len(),
    ensures
        deduplicated(s.subrange(0, j)).is_prefix_of(deduplicated(s)),
    decreases s.len(),
{
    if j < s.len() {
        assert(s.drop_last().subrange(0, j) =~= s.subrange(0, j));
        lemma_dedup_prefix(s.drop_last(), j);
    } else {
        assert(s.subrange(0, j) =~= s);
    }
}

proof fn lemma_dedup_disjoint(s: Seq<HighlightRange>)
    ensures
        forall|i: int, k: int|
            0 <= i < k < deduplicated(s).len() ==> !overlaps(#[trigger] deduplicated(s)[i], #[trigger] deduplicated(s)[k]),
    decreases s.len(),
{
    if s.len() > 0 {
        lemma_dedup_disjoint(s.drop_last());
        let kept = deduplicated(s.drop_last());
        let r = deduplicated(s);
        assert forall|i: int, k: int| 0 <= i < k < r.len() implies !overlaps(#[trigger] r[i], #[trigger] r[k]) by {
            if k == kept.len() {
                assert(r[k] == s.last());
                if overlaps(r[i], r[k]) {
                    assert(overlaps(kept[i], s.last()));
                }
            } else {
                assert(r[i] == kept[i] && r[k] == kept[k]);
            }
        }
    }
}

/// What `deduplicate_ranges` keeps of sorted ranges: no two kept ranges
/// overlap; the ranges kept of each prefix of the input are a prefix of what
/// is kept of all of it (so the order of the input is kept); and each range
/// is kept after those kept before it, or left out because it overlaps one
/// of them.
pub proof fn deduplicated_keeps_disjoint_ranges_in_order(s: Seq<HighlightRange>)
    ensures
        forall|i: int, k: int|
            0 <= i < k < deduplicated(s).len() ==> !overlaps(#[trigger] deduplicated(s)[i], #[trigger] deduplicated(s)[k]),
        forall|j: int| 0 <= j <= s.len() ==> #[trigger] deduplicated(s.subrange(0, j)).is_prefix_of(deduplicated(s)),
        forall|j: int| 0 <= j < s.len() ==> #[trigger] dedup_step(s, j),
{
    lemma_dedup_disjoint(s);
    assert forall|j: int| 0 <= j <= s.len() implies #[trigger] deduplicated(s.subrange(0, j)).is_prefix_of(deduplicated(s)) by {
        lemma_dedup_prefix(s, j);
    }
    assert forall|j: int| 0 <= j < s.len() implies #[trigger] dedup_step(s, j) by {
        assert(s.subrange(0, j + 1).drop_last() =~= s.subrange(0, j));
        assert(s.subrange(0, j + 1).last() == s[j]);
    }
}


/// `find_char` finds the first `c` from `i` on, and none when there is none.
proof fn lemma_find_char_first(s: Seq<char>, c: char, i: int)
    requires
        0 <= i,
    ensures
        find_char_is_first(s, c, i),
    decreases s.len() - i,
{
    if i < s.len() && s[i] != c {
        lemma_find_char_first(s, c, i + 1);
    }
}

/// What it means for `find_char(s, c, i)` to be the first `c` from `i` on.
spec fn find_char_is_first(s: Seq<char>, c: char, i: int) -> bool {
    match crate::plugin::find_char(s, c, i) {
        Some(p) => i <= p < s.len() && s[p] == c && forall|q: int| i <= q < p ==> s[q] != c,
        None => forall|q: int| i <= q < s.len() ==> s[q] != c,
    }
}

/// How a capture's color is chosen: when the theme holds the capture's own
/// slot ("syntax-" followed by the name), that slot's color; otherwise, for a
/// name with a '.', the color of the slot of the name's part before its first
/// '.', when the theme holds it; otherwise none.
pub proof fn own_slot_wins_then_parent(capture: Seq<char>, theme: Map<Seq<char>, ThemeColor>)
    ensures
        theme.contains_key("syntax-"@ + capture) ==> capture_color(capture, theme) == Some(theme["syntax-"@ + capture]),
        !theme.contains_key("syntax-"@ + capture) ==> match capture_color(capture, theme) {
            Some(x) => exists|p: int|
                #![trigger capture[p]]
                0 <= p < capture.len() && capture[p] == '.' && (forall|q: int| 0 <= q < p ==> capture[q] != '.')
                    && theme.contains_key("syntax-"@ + capture.subrange(0, p)) && x == theme["syntax-"@
                    + capture.subrange(0, p)],
            None => forall|p: int|
                0 <= p < capture.len() && capture[p] == '.' && (forall|q: int| 0 <= q < p ==> capture[q] != '.')
                    ==> !theme.contains_key(#[trigger] ("syntax-"@ + capture.subrange(0, p))),
        },
{
    lemma_find_char_first(capture, '.', 0);
    if !theme.contains_key("syntax-"@ + capture) {
        match crate::plugin::find_char(capture, '.', 0) {
            Some(p) => {
                assert forall|p2: int|
                    0 <= p2 < capture.len() && capture[p2] == '.' && (forall|q: int| 0 <= q < p2 ==> capture[q] != '.')
                        implies p2 == p by {
                    if p2 < p {
                    } else if p2 > p {
                        assert(capture[p] == '.');
                    }
                }
            },
            None => {},
        }
    }
}
} // verus!
