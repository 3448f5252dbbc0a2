//! The line structure of a text, as the editor sees it.
//!
//! A text is a sequence of chars. Line breaks are LF, VT, FF, CR, NEL,
//! LINE SEPARATOR, PARAGRAPH SEPARATOR, and the pair CR LF counts as one break.
//! A line starts at the beginning of the text and right after every break, and
//! a break belongs to the line it ends; a text ending in a break therefore has
//! a final empty line, and the empty text has one empty line.
use vstd::prelude::*;

verus! {

/// Whether `c` is one of the recognised line-break characters.
pub open spec fn is_break_char(c: char) -> bool {
    c == '\n' || c == '\u{0B}' || c == '\u{0C}' || c == '\r' || c == '\u{85}' || c == '\u{2028}'
        || c == '\u{2029}'
}

/// Whether a line break ends right before char index `p`.
pub open spec fn is_line_end_at(s: Seq<char>, p: int) -> bool {
    &&& 1 <= p <= s.len()
    &&& is_break_char(s[p - 1])
    &&& !(s[p - 1] == '\r' && p < s.len() && s[p] == '\n')
}

/// The start indices of all lines after the first whose start lies after `k`, in order.
pub open spec fn breaks_after(s: Seq<char>, k: int) -> Seq<int>
    decreases s.len() - k,
{
    if k >= s.len() {
        Seq::empty()
    } else if is_line_end_at(s, k + 1) {
        seq![k + 1] + breaks_after(s, k + 1)
    } else {
        breaks_after(s, k + 1)
    }
}

/// The start indices of all lines of `s`, in order.
pub open spec fn line_starts(s: Seq<char>) -> Seq<int> {
    seq![0int] + breaks_after(s, 0)
}

/// The number of lines of `s` (at least one).
pub open spec fn line_count(s: Seq<char>) -> int {
    line_starts(s).len() as int
}

/// The char index where line `i` starts; `s.len()` for `i == line_count(s)`.
pub open spec fn line_start(s: Seq<char>, i: int) -> int {
    if 0 <= i < line_count(s) {
        line_starts(s)[i]
    } else {
        s.len() as int
    }
}

/// The char index right after line `i` (after its line break, if it has one).
pub open spec fn line_end(s: Seq<char>, i: int) -> int {
    line_start(s, i + 1)
}

/// The chars of line `i`, including its line break.
pub open spec fn line_text(s: Seq<char>, i: int) -> Seq<char> {
    s.subrange(line_start(s, i), line_end(s, i))
}

/// The number of chars of line `i`, including its line break.
pub open spec fn line_len(s: Seq<char>, i: int) -> int {
    line_end(s, i) - line_start(s, i)
}

/// The index of the last line.
pub open spec fn last_line(s: Seq<char>) -> int {
    line_count(s) - 1
}

/// `s` without any trailing '\n' chars.
pub open spec fn trim_newlines(s: Seq<char>) -> Seq<char>
    decreases s.len(),
{
    if s.len() > 0 && s.last() == '\n' {
        trim_newlines(s.drop_last())
    } else {
        s
    }
}

/// The number of UTF-8 bytes that encode `s`.
pub open spec fn byte_len(s: Seq<char>) -> int {
    vstd::utf8::encode_utf8(s).len() as int
}

/// The entries of `breaks_after(s, k)` lie in `(k, s.len()]` and increase strictly.
pub proof fn lemma_breaks_after_bounds(s: Seq<char>, k: int)
    requires
        0 <= k,
    ensures
        forall|j: int|
            0 <= j < breaks_after(s, k).len() ==> k < #[trigger] breaks_after(s, k)[j] <= s.len(),
        forall|a: int, b: int|
            0 <= a < b < breaks_after(s, k).len() ==> breaks_after(s, k)[a] < breaks_after(
                s,
                k,
            )[b],
    decreases s.len() - k,
{
    if k < s.len() {
        lemma_breaks_after_bounds(s, k + 1);
        let rest = breaks_after(s, k + 1);
        if is_line_end_at(s, k + 1) {
            let all = seq![k + 1] + rest;
            assert(breaks_after(s, k) == all);
            assert forall|a: int, b: int| 0 <= a < b < all.len() implies all[a] < all[b] by {
                if a == 0 {
                    assert(all[b] == rest[b - 1]);
                } else {
                    assert(all[a] == rest[a - 1]);
                    assert(all[b] == rest[b - 1]);
                }
            }
            assert forall|j: int| 0 <= j < all.len() implies k < #[trigger] all[j] <= s.len() by {
                if j > 0 {
                    assert(all[j] == rest[j - 1]);
                }
            }
        }
    }
}

/// Lines are ordered and lie within the text; line 0 starts at 0 and the last ends at the end.
pub proof fn lemma_line_bounds(s: Seq<char>)
    ensures
        line_count(s) >= 1,
        line_start(s, 0) == 0,
        line_end(s, last_line(s)) == s.len(),
        forall|i: int|
            0 <= i < line_count(s) ==> 0 <= #[trigger] line_start(s, i) <= line_end(s, i)
                <= s.len(),
        forall|i: int, j: int|
            0 <= i <= j <= line_count(s) ==> #[trigger] line_start(s, i) <= #[trigger] line_start(
                s,
                j,
            ),
        forall|i: int, j: int|
            0 <= i < j < line_count(s) ==> #[trigger] line_start(s, i) < #[trigger] line_start(s, j),
{
    lemma_breaks_after_bounds(s, 0);
    let b = breaks_after(s, 0);
    let st = line_starts(s);
    assert(st[0] == 0);
    assert forall|i: int| 0 < i < st.len() implies 0 < #[trigger] st[i] <= s.len() by {
        assert(st[i] == b[i - 1]);
    }
    assert forall|i: int, j: int| 0 <= i < j < st.len() implies st[i] < st[j] by {
        assert(st[j] == b[j - 1]);
        if i > 0 {
            assert(st[i] == b[i - 1]);
        }
    }
    assert forall|i: int, j: int|
        0 <= i <= j <= line_count(s) implies #[trigger] line_start(s, i) <= #[trigger] line_start(
        s,
        j,
    ) by {
        if i < j {
            if j < line_count(s) {
                assert(st[i] < st[j]);
            }
        }
    }
}

/// Line `i` lies within the text, and there is at least one line.
pub proof fn lemma_line_range(s: Seq<char>, i: int)
    requires
        0 <= i < line_count(s),
    ensures
        0 <= line_start(s, i) <= line_end(s, i) <= s.len(),
        line_count(s) >= 1,
{
    lemma_line_bounds(s);
    assert(0 <= line_start(s, i) <= line_end(s, i) <= s.len());
}

/// There is at least one line, and the last line ends at the end of the text.
pub proof fn lemma_line_count_positive(s: Seq<char>)
    ensures
        line_count(s) >= 1,
        line_start(s, 0) == 0,
        line_end(s, last_line(s)) == s.len(),
{
    lemma_line_bounds(s);
}

/// `trim_newlines(s)` is a prefix of `s` followed only by '\n' chars.
pub proof fn lemma_trim_newlines(s: Seq<char>)
    ensures
        trim_newlines(s).len() <= s.len(),
        trim_newlines(s) == s.subrange(0, trim_newlines(s).len() as int),
        trim_newlines(s).len() == 0 || trim_newlines(s).last() != '\n',
        forall|i: int| trim_newlines(s).len() <= i < s.len() ==> s[i] == '\n',
    decreases s.len(),
{
    if s.len() > 0 && s.last() == '\n' {
        lemma_trim_newlines(s.drop_last());
        assert forall|i: int| trim_newlines(s).len() <= i < s.len() implies s[i] == '\n' by {
            if i < s.len() - 1 {
                assert(s.drop_last()[i] == s[i]);
            }
        }
    }
}

/// `trim_newlines(s)` is the prefix of length `k` when `s[k..]` is all '\n' and `s[k-1]` is not.
pub proof fn lemma_trim_newlines_at(s: Seq<char>, k: int)
    requires
        0 <= k <= s.len(),
        forall|i: int| k <= i < s.len() ==> s[i] == '\n',
        k == 0 || s[k - 1] != '\n',
    ensures
        trim_newlines(s) == s.subrange(0, k),
    decreases s.len(),
{
    if s.len() > k {
        assert forall|i: int| k <= i < s.drop_last().len() implies s.drop_last()[i] == '\n' by {
            assert(s.drop_last()[i] == s[i]);
        }
        if k > 0 {
            assert(s.drop_last()[k - 1] == s[k - 1]);
        }
        lemma_trim_newlines_at(s.drop_last(), k);
        assert(s.drop_last().subrange(0, k) =~= s.subrange(0, k));
    } else {
        assert(s.subrange(0, k) =~= s);
    }
}


/// The UTF-8 bytes of a concatenation are the bytes of its parts, one after the other.
pub proof fn lemma_encode_concat(a: Seq<char>, b: Seq<char>)
    ensures
        vstd::utf8::encode_utf8(a + b) == vstd::utf8::encode_utf8(a) + vstd::utf8::encode_utf8(b),
    decreases a.len(),
{
    if a.len() == 0 {
        assert(a + b =~= b);
        assert(vstd::utf8::encode_utf8(a) =~= Seq::<u8>::empty());
        assert(vstd::utf8::encode_utf8(a + b) =~= vstd::utf8::encode_utf8(a) + vstd::utf8::encode_utf8(b));
    } else {
        assert((a + b).drop_first() =~= a.drop_first() + b);
        lemma_encode_concat(a.drop_first(), b);
        assert(vstd::utf8::encode_utf8(a + b) =~= vstd::utf8::encode_utf8(a) + vstd::utf8::encode_utf8(b));
    }
}

/// Byte lengths add up over a concatenation.
pub proof fn lemma_byte_len_concat(a: Seq<char>, b: Seq<char>)
    ensures
        byte_len(a + b) == byte_len(a) + byte_len(b),
{
    lemma_encode_concat(a, b);
}

/// Every char takes at least one byte.
pub proof fn lemma_byte_len_char(c: char)
    ensures
        byte_len(seq![c]) >= 1,
{
    assert(seq![c].drop_first() =~= Seq::<char>::empty());
    vstd::utf8::char_is_scalar(c);
}

/// Whether every line break of `s` is a '\n'.
pub open spec fn lf_only(s: Seq<char>) -> bool {
    forall|i: int| 0 <= i < s.len() && is_break_char(#[trigger] s[i]) ==> s[i] == '\n'
}

/// Each entry of `v` moved by `d`.
pub open spec fn shifted(v: Seq<int>, d: int) -> Seq<int> {
    v.map_values(|x: int| x + d)
}

/// In a text whose breaks are all '\n', a line ends right after each '\n'.
pub proof fn lemma_lf_line_end(s: Seq<char>, p: int)
    requires
        lf_only(s),
    ensures
        is_line_end_at(s, p) == (1 <= p <= s.len() && s[p - 1] == '\n'),
{
    if 1 <= p <= s.len() {
        assert(is_break_char(s[p - 1]) ==> s[p - 1] == '\n');
    }
}

/// The parts of a text whose breaks are all '\n' have only '\n' breaks too.
pub proof fn lemma_lf_only_parts(a: Seq<char>, b: Seq<char>)
    ensures
        lf_only(a + b) == (lf_only(a) && lf_only(b)),
{
    if lf_only(a + b) {
        assert forall|i: int| 0 <= i < a.len() && is_break_char(#[trigger] a[i]) implies a[i] == '\n' by {
            assert(a[i] == (a + b)[i]);
        }
        assert forall|i: int| 0 <= i < b.len() && is_break_char(#[trigger] b[i]) implies b[i] == '\n' by {
            assert(b[i] == (a + b)[a.len() + i]);
        }
    }
    if lf_only(a) && lf_only(b) {
        assert forall|i: int| 0 <= i < (a + b).len() && is_break_char(#[trigger] (a + b)[i]) implies (a
            + b)[i] == '\n' by {
            if i < a.len() {
                assert((a + b)[i] == a[i]);
            } else {
                assert((a + b)[i] == b[i - a.len()]);
            }
        }
    }
}

proof fn lemma_breaks_front(a: Seq<char>, b: Seq<char>, k: int)
    requires
        lf_only(a + b),
        0 <= k <= a.len(),
    ensures
        breaks_after(a + b, k) == breaks_after(a, k) + breaks_after(a + b, a.len() as int),
    decreases a.len() - k,
{
    lemma_lf_only_parts(a, b);
    if k < a.len() {
        lemma_breaks_front(a, b, k + 1);
        lemma_lf_line_end(a + b, k + 1);
        lemma_lf_line_end(a, k + 1);
        assert((a + b)[k] == a[k]);
        assert(breaks_after(a + b, k) =~= breaks_after(a, k) + breaks_after(a + b, a.len() as int));
    } else {
        assert(breaks_after(a, k) =~= Seq::<int>::empty());
        assert(breaks_after(a + b, k) =~= breaks_after(a, k) + breaks_after(a + b, a.len() as int));
    }
}

proof fn lemma_breaks_back(a: Seq<char>, b: Seq<char>, j: int)
    requires
        lf_only(a + b),
        0 <= j <= b.len(),
    ensures
        breaks_after(a + b, a.len() + j) == shifted(breaks_after(b, j), a.len() as int),
    decreases b.len() - j,
{
    lemma_lf_only_parts(a, b);
    if j < b.len() {
        lemma_breaks_back(a, b, j + 1);
        lemma_lf_line_end(a + b, a.len() + j + 1);
        lemma_lf_line_end(b, j + 1);
        assert((a + b)[a.len() + j] == b[j]);
        assert(breaks_after(a + b, a.len() + j) =~= shifted(breaks_after(b, j), a.len() as int));
    } else {
        assert(breaks_after(a + b, a.len() + j) =~= shifted(breaks_after(b, j), a.len() as int));
    }
}

proof fn lemma_breaks_last(a: Seq<char>, k: int)
    requires
        lf_only(a),
        a.len() > 0,
        a.last() == '\n',
        0 <= k < a.len(),
    ensures
        breaks_after(a, k).len() > 0,
        breaks_after(a, k).last() == a.len(),
    decreases a.len() - k,
{
    lemma_lf_line_end(a, k + 1);
    if k + 1 < a.len() {
        lemma_breaks_last(a, k + 1);
    } else {
        assert(breaks_after(a, k + 1) =~= Seq::<int>::empty());
    }
}

/// A text that ends in '\n' (or is empty) put before another: the lines of
/// the first, without its final empty line, then those of the second.
pub proof fn lemma_line_starts_glue(a: Seq<char>, b: Seq<char>)
    requires
        lf_only(a + b),
        a.len() == 0 || a.last() == '\n',
    ensures
        line_starts(a + b) == line_starts(a).drop_last() + shifted(line_starts(b), a.len() as int),
{
    lemma_lf_only_parts(a, b);
    lemma_breaks_front(a, b, 0);
    lemma_breaks_back(a, b, 0);
    if a.len() == 0 {
        assert(breaks_after(a, 0) =~= Seq::<int>::empty());
        assert(a + b =~= b);
        assert(line_starts(a + b) =~= line_starts(a).drop_last() + shifted(line_starts(b), a.len() as int));
    } else {
        lemma_breaks_last(a, 0);
        let ba = breaks_after(a, 0);
        assert(ba =~= ba.drop_last().push(a.len() as int));
        assert(line_starts(a + b) =~= line_starts(a).drop_last() + shifted(line_starts(b), a.len() as int));
    }
}

proof fn lemma_single_line_breaks(x: Seq<char>, k: int)
    requires
        lf_only(x),
        forall|j: int| 0 <= j < x.len() - 1 ==> x[j] != '\n',
        0 <= k,
    ensures
        breaks_after(x, k) == (if k < x.len() && x.last() == '\n' {
            seq![x.len() as int]
        } else {
            Seq::<int>::empty()
        }),
    decreases x.len() - k,
{
    if k < x.len() {
        lemma_single_line_breaks(x, k + 1);
        lemma_lf_line_end(x, k + 1);
        assert(breaks_after(x, k) =~= (if k < x.len() && x.last() == '\n' {
            seq![x.len() as int]
        } else {
            Seq::<int>::empty()
        }));
    }
}

/// A text with no '\n' but maybe a last one: one line, and an empty one after
/// a final '\n'.
pub proof fn lemma_single_line(x: Seq<char>)
    requires
        lf_only(x),
        forall|j: int| 0 <= j < x.len() - 1 ==> x[j] != '\n',
    ensures
        line_starts(x) == (if x.len() > 0 && x.last() == '\n' {
            seq![0int, x.len() as int]
        } else {
            seq![0int]
        }),
{
    lemma_single_line_breaks(x, 0);
    assert(line_starts(x) =~= (if x.len() > 0 && x.last() == '\n' {
        seq![0int, x.len() as int]
    } else {
        seq![0int]
    }));
}

proof fn lemma_breaks_sound(s: Seq<char>, k: int)
    ensures
        forall|j: int| 0 <= j < breaks_after(s, k).len() ==> is_line_end_at(s, #[trigger] breaks_after(s, k)[j]),
    decreases s.len() - k,
{
    if k < s.len() {
        lemma_breaks_sound(s, k + 1);
        let rest = breaks_after(s, k + 1);
        if is_line_end_at(s, k + 1) {
            assert forall|j: int| 0 <= j < breaks_after(s, k).len() implies is_line_end_at(s, #[trigger] breaks_after(s, k)[j]) by {
                if j > 0 {
                    assert(breaks_after(s, k)[j] == rest[j - 1]);
                }
            }
        }
    }
}

proof fn lemma_breaks_complete(s: Seq<char>, k: int, p: int)
    requires
        0 <= k < p,
        is_line_end_at(s, p),
    ensures
        exists|j: int| 0 <= j < breaks_after(s, k).len() && breaks_after(s, k)[j] == p,
    decreases p - k,
{
    if k + 1 == p {
        assert(breaks_after(s, k)[0] == p);
    } else {
        lemma_breaks_complete(s, k + 1, p);
        let rest = breaks_after(s, k + 1);
        let j = choose|j: int| 0 <= j < rest.len() && rest[j] == p;
        if is_line_end_at(s, k + 1) {
            assert(breaks_after(s, k)[j + 1] == p);
        } else {
            assert(breaks_after(s, k)[j] == p);
        }
    }
}

/// In a text whose breaks are all '\n', a line holds no '\n' but its last
/// char, which is one on every line but the last.
pub proof fn lemma_line_has_one_break(s: Seq<char>, i: int)
    requires
        lf_only(s),
        0 <= i < line_count(s),
    ensures
        i < line_count(s) - 1 ==> line_start(s, i) < line_end(s, i) && s[line_end(s, i) - 1] == '\n',
        i == line_count(s) - 1 ==> line_end(s, i) == s.len(),
        forall|j: int|
            line_start(s, i) <= j < line_end(s, i) && (j < line_end(s, i) - 1 || i == line_count(s) - 1)
                ==> s[j] != '\n',
{
    lemma_line_bounds(s);
    lemma_breaks_sound(s, 0);
    let st = line_starts(s);
    if i < line_count(s) - 1 {
        assert(st[i + 1] == breaks_after(s, 0)[i]);
        lemma_lf_line_end(s, st[i + 1]);
        assert(line_start(s, i) < line_end(s, i));
    }
    assert forall|j: int|
        line_start(s, i) <= j < line_end(s, i) && (j < line_end(s, i) - 1 || i == line_count(s) - 1)
            implies s[j] != '\n' by {
        if s[j] == '\n' {
            lemma_line_range(s, i);
            lemma_lf_line_end(s, j + 1);
            lemma_breaks_complete(s, 0, j + 1);
            let m = choose|m: int| 0 <= m < breaks_after(s, 0).len() && breaks_after(s, 0)[m] == j + 1;
            assert(st[m + 1] == j + 1);
            assert(line_start(s, m + 1) == j + 1);
            if m + 1 <= i {
                assert(line_start(s, m + 1) <= line_start(s, i));
            } else if i + 1 < line_count(s) {
                if m + 1 == i + 1 {
                } else {
                    assert(line_start(s, i + 1) < line_start(s, m + 1));
                }
            }
        }
    }
}

/// A text has at most one line more than it has chars.
pub proof fn lemma_line_count_bound(s: Seq<char>)
    ensures
        line_count(s) <= s.len() + 1,
{
    lemma_line_bounds(s);
    let n = line_count(s);
    assert forall|i: int| 0 <= i < n implies #[trigger] line_start(s, i) >= i by {
        lemma_start_at_least(s, i);
    }
    assert(line_start(s, n - 1) >= n - 1);
    lemma_line_range(s, n - 1);
}

proof fn lemma_start_at_least(s: Seq<char>, i: int)
    requires
        0 <= i < line_count(s),
    ensures
        line_start(s, i) >= i,
    decreases i,
{
    lemma_line_bounds(s);
    if i > 0 {
        lemma_start_at_least(s, i - 1);
        assert(line_start(s, i - 1) < line_start(s, i));
    }
}
} // verus!
