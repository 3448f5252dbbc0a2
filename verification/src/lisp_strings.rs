//! The Lisp string primitives: splitting, joining, searching, replacing,
//! cutting, trimming, changing case, concatenating, printing values and
//! parsing integers.
use crate::bridge::{
    cat2, cat3, cat6, decimal, decimal_text, kind_message, missing_message, require_int_arg, require_string_arg,
    required_int, required_string, text_result, Arg, ArgKind, Reply,
};
use crate::lines::byte_len;
use crate::lisp_editor::fails_with;
use crate::text::{str_to_chars, str_to_lowercase, str_trim, string_push, string_push_str, to_string, lowercase, trimmed};
use vstd::prelude::*;

verus! {

/// Whether `p` occurs in `s` at `j`.
pub open spec fn matches_at(s: Seq<char>, p: Seq<char>, j: int) -> bool {
    0 <= j && j + p.len() <= s.len() && s.subrange(j, j + p.len()) == p
}

/// The first position at or after `i` where `p` occurs in `s`.
pub open spec fn find_from(s: Seq<char>, p: Seq<char>, i: int) -> Option<int>
    decreases s.len() - i,
{
    if i < 0 || i + p.len() > s.len() {
        None
    } else if matches_at(s, p, i) {
        Some(i)
    } else if i + p.len() == s.len() {
        None
    } else {
        find_from(s, p, i + 1)
    }
}

/// A position found is a match at or after `i`, and nothing matches between.
pub proof fn lemma_find_from(s: Seq<char>, p: Seq<char>, i: int)
    ensures
        find_from(s, p, i) matches Some(j) ==> i <= j && matches_at(s, p, j) && forall|k: int|
            i <= k < j ==> !matches_at(s, p, k),
        find_from(s, p, i) is None ==> forall|k: int| 0 <= i <= k ==> !matches_at(s, p, k),
    decreases s.len() - i,
{
    if i < 0 || i + p.len() > s.len() {
    } else if matches_at(s, p, i) {
    } else if i + p.len() == s.len() {
    } else {
        lemma_find_from(s, p, i + 1);
    }
}

fn matches_at_exec(s: &Vec<char>, p: &Vec<char>, j: usize) -> (b: bool)
    requires
        j + p@.len() <= s@.len(),
    ensures
        b == matches_at(s@, p@, j as int),
{
    let mut k: usize = 0;
    while k < p.len()
        invariant
            j + p@.len() <= s.len(),
            k <= p@.len(),
            forall|m: int| 0 <= m < k ==> s@[j + m] == p@[m],
        decreases p@.len() - k,
    {
        if s[j + k] != p[k] {
            assert(s@.subrange(j as int, j + p@.len())[k as int] != p@[k as int]);
            return false;
        }
        k = k + 1;
    }
    assert(s@.subrange(j as int, j + p@.len()) =~= p@);
    true
}

/// The first position at or after `from` where `p` occurs in `s`.
pub fn find_chars(s: &Vec<char>, p: &Vec<char>, from: usize) -> (r: Option<usize>)
    ensures
        match r {
            Some(j) => find_from(s@, p@, from as int) == Some(j as int),
            None => find_from(s@, p@, from as int) is None,
        },
{
    if p.len() > s.len() {
        return None;
    }
    let last = s.len() - p.len();
    let mut j = from;
    while j <= last
        invariant
            last + p@.len() == s@.len(),
            from <= j,
            find_from(s@, p@, from as int) == find_from(s@, p@, j as int),
        decreases last + 1 - j,
    {
        if matches_at_exec(s, p, j) {
            return Some(j);
        }
        if j == last {
            return None;
        }
        j = j + 1;
    }
    None
}

/// The parts of `s` between the occurrences of a non-empty `d`, from `pos` on.
pub open spec fn split_from(s: Seq<char>, d: Seq<char>, pos: int) -> Seq<Seq<char>>
    decreases s.len() - pos,
{
    if d.len() == 0 || pos < 0 || pos > s.len() {
        Seq::empty()
    } else {
        match find_from(s, d, pos) {
            Some(j) => {
                proof {
                    lemma_find_from(s, d, pos);
                }
                seq![s.subrange(pos, j)] + split_from(s, d, j + d.len())
            },
            None => seq![s.subrange(pos, s.len() as int)],
        }
    }
}

/// `s` split by `d` as `str::split` splits it: the parts between the
/// occurrences of `d`, taken from the left without overlap; an empty `d`
/// separates every char, and the start and end of `s`.
pub open spec fn split_by(s: Seq<char>, d: Seq<char>) -> Seq<Seq<char>> {
    if d.len() == 0 {
        seq![Seq::<char>::empty()] + Seq::new(s.len(), |i: int| seq![s[i]]) + seq![Seq::<char>::empty()]
    } else {
        split_from(s, d, 0)
    }
}

/// The parts, with `d` between each two.
pub open spec fn join_with(parts: Seq<Seq<char>>, d: Seq<char>) -> Seq<char>
    decreases parts.len(),
{
    if parts.len() == 0 {
        Seq::empty()
    } else if parts.len() == 1 {
        parts[0]
    } else {
        join_with(parts.drop_last(), d) + d + parts.last()
    }
}

/// `s` with every occurrence of `old` (from the left, without overlap)
/// replaced by `new`, as `str::replace` does.
pub open spec fn replaced(s: Seq<char>, old: Seq<char>, new: Seq<char>) -> Seq<char> {
    join_with(split_by(s, old), new)
}

/// The chars `s[from..to]` as a `String`.
fn slice_string(s: &Vec<char>, from: usize, to: usize) -> (r: String)
    requires
        from <= to <= s@.len(),
    ensures
        r@ == s@.subrange(from as int, to as int),
{
    crate::text::chars_to_string(s.as_slice(), from, to)
}

/// The chars of each string.
pub open spec fn strings_view(v: Seq<String>) -> Seq<Seq<char>> {
    v.map_values(|s: String| s@)
}

/// Splits `text` by `delimiter` (see `split_by`).
pub fn split_text(text: &str, delimiter: &str) -> (r: Vec<String>)
    ensures
        strings_view(r@) == split_by(text@, delimiter@),
{
    let s = str_to_chars(text);
    let d = str_to_chars(delimiter);
    let mut parts: Vec<String> = Vec::new();
    if d.len() == 0 {
        parts.push(String::new());
        let mut i: usize = 0;
        while i < s.len()
            invariant
                i <= s@.len(),
                strings_view(parts@) == seq![Seq::<char>::empty()] + Seq::new(i as nat, |k: int| seq![s@[k]]),
            decreases s@.len() - i,
        {
            let mut one = String::new();
            string_push(&mut one, s[i]);
            let ghost before = strings_view(parts@);
            parts.push(one);
            proof {
                assert(Seq::new((i + 1) as nat, |k: int| seq![s@[k]]) =~= Seq::new(i as nat, |k: int| seq![s@[k]]).push(
                    seq![s@[i as int]],
                ));
                assert(strings_view(parts@) =~= before.push(seq![s@[i as int]]));
                assert(one@ =~= seq![s@[i as int]]);
            }
            i = i + 1;
        }
        let ghost before = strings_view(parts@);
        parts.push(String::new());
        proof {
            assert(strings_view(parts@) =~= before.push(Seq::<char>::empty()));
        }
        return parts;
    }
    let mut pos: usize = 0;
    loop
        invariant
            d@.len() > 0,
            s@ == text@,
            d@ == delimiter@,
            pos <= s@.len(),
            strings_view(parts@) + split_from(s@, d@, pos as int) == split_from(s@, d@, 0),
        decreases s@.len() - pos,
    {
        let ghost before = strings_view(parts@);
        match find_chars(&s, &d, pos) {
            Some(j) => {
                proof {
                    lemma_find_from(s@, d@, pos as int);
                    assert(j + d@.len() <= s.len());
                }
                let piece = slice_string(&s, pos, j);
                parts.push(piece);
                proof {
                    assert(strings_view(parts@) =~= before.push(s@.subrange(pos as int, j as int)));
                    assert(strings_view(parts@) + split_from(s@, d@, j + d@.len()) =~= before + split_from(
                        s@,
                        d@,
                        pos as int,
                    ));
                }
                pos = j + d.len();
            },
            None => {
                let piece = slice_string(&s, pos, s.len());
                parts.push(piece);
                proof {
                    assert(strings_view(parts@) =~= before + split_from(s@, d@, pos as int));
                }
                return parts;
            },
        }
    }
}

/// The strings, with `delimiter` between each two.
pub fn join_strings(parts: &Vec<String>, delimiter: &str) -> (r: String)
    ensures
        r@ == join_with(strings_view(parts@), delimiter@),
{
    let mut out = String::new();
    let mut i: usize = 0;
    while i < parts.len()
        invariant
            i <= parts@.len(),
            out@ == join_with(strings_view(parts@.subrange(0, i as int)), delimiter@),
        decreases parts@.len() - i,
    {
        let ghost before = out@;
        if i > 0 {
            string_push_str(&mut out, delimiter);
        }
        string_push_str(&mut out, parts[i].as_str());
        proof {
            let pv = strings_view(parts@.subrange(0, i + 1));
            assert(pv.drop_last() =~= strings_view(parts@.subrange(0, i as int)));
            assert(pv.last() == parts@[i as int]@);
            if i == 0 {
                assert(pv.len() == 1);
                assert(before =~= Seq::<char>::empty());
                assert(out@ =~= pv[0]);
            }
        }
        i = i + 1;
    }
    assert(parts@.subrange(0, parts@.len() as int) =~= parts@);
    out
}

/// `text` with every occurrence of `old` replaced by `new` (see `replaced`).
pub fn replace_text(text: &str, old: &str, new: &str) -> (r: String)
    ensures
        r@ == replaced(text@, old@, new@),
{
    let parts = split_text(text, old);
    join_strings(&parts, new)
}


/// Why a text is not an `i32` (as `ParseIntError` tells it).
#[derive(Debug, Clone, Copy, PartialEq, Eq)]
pub enum IntError {
    Empty,
    InvalidDigit,
    PosOverflow,
    NegOverflow,
}

/// The text of an `IntError`, as `ParseIntError` displays it.
pub open spec fn int_error_text(e: IntError) -> Seq<char> {
    match e {
        IntError::Empty => "cannot parse integer from empty string"@,
        IntError::InvalidDigit => "invalid digit found in string"@,
        IntError::PosOverflow => "number too large to fit in target type"@,
        IntError::NegOverflow => "number too small to fit in target type"@,
    }
}

/// The value of a decimal digit.
pub open spec fn digit_value(c: char) -> Option<int> {
    if '0' <= c <= '9' {
        Some(c as int - '0' as int)
    } else {
        None
    }
}

/// Reads decimal digits after `acc`, adding (or, for a negative number,
/// subtracting) each; stops at the first char that is no digit or the first
/// value out of the `i32` range.
pub open spec fn read_digits(d: Seq<char>, acc: int, positive: bool) -> Result<int, IntError>
    decreases d.len(),
{
    if d.len() == 0 {
        Ok(acc)
    } else {
        match digit_value(d[0]) {
            None => Err(IntError::InvalidDigit),
            Some(v) => {
                let next = if positive {
                    acc * 10 + v
                } else {
                    acc * 10 - v
                };
                if next > i32::MAX {
                    Err(IntError::PosOverflow)
                } else if next < i32::MIN {
                    Err(IntError::NegOverflow)
                } else {
                    read_digits(d.drop_first(), next, positive)
                }
            },
        }
    }
}

/// A text read as an `i32` as `str::parse::<i32>` reads it: an optional
/// '+' or '-' and then decimal digits.
pub open spec fn parse_i32(s: Seq<char>) -> Result<i32, IntError> {
    let r = if s.len() == 0 {
        Err(IntError::Empty)
    } else if s.len() == 1 && (s[0] == '+' || s[0] == '-') {
        Err(IntError::InvalidDigit)
    } else if s[0] == '+' {
        read_digits(s.drop_first(), 0, true)
    } else if s[0] == '-' {
        read_digits(s.drop_first(), 0, false)
    } else {
        read_digits(s, 0, true)
    };
    match r {
        Ok(n) => Ok(n as i32),
        Err(e) => Err(e),
    }
}

proof fn lemma_read_digits_range(d: Seq<char>, acc: int, positive: bool)
    requires
        i32::MIN <= acc <= i32::MAX,
    ensures
        read_digits(d, acc, positive) matches Ok(n) ==> i32::MIN <= n <= i32::MAX,
    decreases d.len(),
{
    if d.len() > 0 {
        match digit_value(d[0]) {
            None => {},
            Some(v) => {
                let next = if positive {
                    acc * 10 + v
                } else {
                    acc * 10 - v
                };
                if i32::MIN <= next <= i32::MAX {
                    lemma_read_digits_range(d.drop_first(), next, positive);
                }
            },
        }
    }
}

/// Reads a text as an `i32` (see `parse_i32`).
pub fn parse_int_text(text: &str) -> (r: Result<i32, IntError>)
    ensures
        r == parse_i32(text@),
{
    let s = str_to_chars(text);
    if s.len() == 0 {
        return Err(IntError::Empty);
    }
    if s.len() == 1 && (s[0] == '+' || s[0] == '-') {
        return Err(IntError::InvalidDigit);
    }
    let positive = s[0] != '-';
    let start: usize = if s[0] == '+' || s[0] == '-' {
        1
    } else {
        0
    };
    let ghost digits = s@.subrange(start as int, s@.len() as int);
    assert(start == 1 ==> digits =~= s@.drop_first());
    assert(start == 0 ==> digits =~= s@);
    assert(parse_i32(text@) == match read_digits(digits, 0, positive) {
        Ok(n) => Ok::<i32, IntError>(n as i32),
        Err(e) => Err(e),
    });
    let mut acc: i64 = 0;
    let mut i = start;
    while i < s.len()
        invariant
            start <= i <= s@.len(),
            i32::MIN <= acc <= i32::MAX,
            digits == s@.subrange(start as int, s@.len() as int),
            read_digits(digits, 0, positive) == read_digits(s@.subrange(i as int, s@.len() as int), acc as int, positive),
            parse_i32(text@) == match read_digits(digits, 0, positive) {
                Ok(n) => Ok::<i32, IntError>(n as i32),
                Err(e) => Err(e),
            },
        decreases s@.len() - i,
    {
        let c = s[i];
        let ghost rest = s@.subrange(i as int, s@.len() as int);
        assert(rest[0] == c);
        assert(rest.drop_first() =~= s@.subrange(i + 1, s@.len() as int));
        if !('0' <= c && c <= '9') {
            return Err(IntError::InvalidDigit);
        }
        let v = (c as u32 - '0' as u32) as i64;
        let next = if positive {
            acc * 10 + v
        } else {
            acc * 10 - v
        };
        if next > i32::MAX as i64 {
            return Err(IntError::PosOverflow);
        }
        if next < i32::MIN as i64 {
            return Err(IntError::NegOverflow);
        }
        acc = next;
        i = i + 1;
    }
    assert(s@.subrange(i as int, s@.len() as int) =~= Seq::<char>::empty());
    Ok(acc as i32)
}

/// The char position in `s` whose byte offset is `off`, if `off` falls
/// between two chars (or at either end).
pub open spec fn char_at_byte(s: Seq<char>, off: int) -> Option<int>
    decreases s.len(),
{
    if off == 0 {
        Some(0)
    } else if s.len() == 0 || off < 0 {
        None
    } else {
        match char_at_byte(s.drop_first(), off - byte_len(seq![s[0]])) {
            Some(k) => Some(k + 1),
            None => None,
        }
    }
}

/// `str::to_uppercase`: the Unicode uppercase mapping of `s`.
pub uninterp spec fn uppercase(s: Seq<char>) -> Seq<char>;

/// `str::to_uppercase`. On an all-ASCII string it maps 'a'..='z' to 'A'..='Z'
/// and keeps every other char.
#[verifier::external_body]
pub fn str_to_uppercase(s: &str) -> (r: String)
    ensures
        r@ == uppercase(s@),
        crate::text::all_ascii(s@) ==> r@ == Seq::new(s@.len(), |i: int| ascii_upper_char(s@[i])),
{
    s.to_uppercase()
}

/// The ASCII uppercase of one char: 'a'..='z' map to 'A'..='Z', others stay.
pub open spec fn ascii_upper_char(c: char) -> char {
    if 'a' <= c <= 'z' {
        ((c as u32) - 32) as char
    } else {
        c
    }
}

/// The reply `T` when `b` holds, nil otherwise.
pub open spec fn truth<T>(b: bool) -> Reply<T> {
    if b {
        Reply::True
    } else {
        Reply::Nil
    }
}

/// The string arguments `0..n` of a primitive, or the message for the first
/// one that is missing or not a string.
pub open spec fn strings_args<T>(args: Seq<Arg<T>>, fn_name: Seq<char>, n: nat) -> Result<Seq<Seq<char>>, Seq<char>>
    decreases n,
{
    if n == 0 {
        Ok(Seq::empty())
    } else {
        match strings_args(args, fn_name, (n - 1) as nat) {
            Err(m) => Err(m),
            Ok(v) => match required_string(args, (n - 1) as nat, fn_name) {
                Err(m) => Err(m),
                Ok(t) => Ok(v.push(t)),
            },
        }
    }
}

/// `(str-split text delimiter)`: the parts of the text between the
/// delimiters (see `split_by`).
pub fn native_str_split<T>(args: &Vec<Arg<T>>) -> (r: Result<Reply<T>, String>)
    ensures
        match strings_args(args@, "str-split"@, 2) {
            Err(m) => fails_with(r, m),
            Ok(v) => r matches Ok(Reply::Strings(parts)) && strings_view(parts@) == split_by(v[0], v[1]),
        },
{
    proof {
        reveal_with_fuel(strings_args, 4);
    }
    let text = match require_string_arg(args, 0, "str-split") {
        Ok(t) => t,
        Err(e) => return Err(e),
    };
    let delimiter = match require_string_arg(args, 1, "str-split") {
        Ok(t) => t,
        Err(e) => return Err(e),
    };
    Ok(Reply::Strings(split_text(text.as_str(), delimiter.as_str())))
}

/// `(str-length text)`: the number of bytes of the text's UTF-8 encoding.
pub fn native_str_length<T>(args: &Vec<Arg<T>>) -> (r: Result<Reply<T>, String>)
    ensures
        match strings_args(args@, "str-length"@, 1) {
            Err(m) => fails_with(r, m),
            Ok(v) => r == Ok::<Reply<T>, String>(Reply::Int(byte_len(v[0]) as usize as i32)),
        },
{
    proof {
        reveal_with_fuel(strings_args, 4);
    }
    let text = match require_string_arg(args, 0, "str-length") {
        Ok(t) => t,
        Err(e) => return Err(e),
    };
    let n = text.as_str().len();
    Ok(Reply::Int(n as i32))
}

/// `(str-contains text part)`: whether the part occurs in the text.
pub fn native_str_contains<T>(args: &Vec<Arg<T>>) -> (r: Result<Reply<T>, String>)
    ensures
        match strings_args(args@, "str-contains"@, 2) {
            Err(m) => fails_with(r, m),
            Ok(v) => r == Ok::<Reply<T>, String>(truth(find_from(v[0], v[1], 0) is Some)),
        },
{
    proof {
        reveal_with_fuel(strings_args, 4);
    }
    let text = match require_string_arg(args, 0, "str-contains") {
        Ok(t) => t,
        Err(e) => return Err(e),
    };
    let part = match require_string_arg(args, 1, "str-contains") {
        Ok(t) => t,
        Err(e) => return Err(e),
    };
    let s = str_to_chars(text.as_str());
    let p = str_to_chars(part.as_str());
    match find_chars(&s, &p, 0) {
        Some(_) => Ok(Reply::True),
        None => Ok(Reply::Nil),
    }
}

/// `(str-replace text old new)`: the text with every `old` replaced by `new`.
pub fn native_str_replace<T>(args: &Vec<Arg<T>>) -> (r: Result<Reply<T>, String>)
    ensures
        match strings_args(args@, "str-replace"@, 3) {
            Err(m) => fails_with(r, m),
            Ok(v) => r matches Ok(Reply::Str(t)) && t@ == replaced(v[0], v[1], v[2]),
        },
{
    proof {
        reveal_with_fuel(strings_args, 4);
    }
    let text = match require_string_arg(args, 0, "str-replace") {
        Ok(t) => t,
        Err(e) => return Err(e),
    };
    let old = match require_string_arg(args, 1, "str-replace") {
        Ok(t) => t,
        Err(e) => return Err(e),
    };
    let new = match require_string_arg(args, 2, "str-replace") {
        Ok(t) => t,
        Err(e) => return Err(e),
    };
    Ok(Reply::Str(replace_text(text.as_str(), old.as_str(), new.as_str())))
}

/// `(str-trim text)`: the text without leading and trailing white space.
pub fn native_str_trim<T>(args: &Vec<Arg<T>>) -> (r: Result<Reply<T>, String>)
    ensures
        match strings_args(args@, "str-trim"@, 1) {
            Err(m) => fails_with(r, m),
            Ok(v) => r matches Ok(Reply::Str(t)) && t@ == trimmed(v[0]),
        },
{
    proof {
        reveal_with_fuel(strings_args, 4);
    }
    let text = match require_string_arg(args, 0, "str-trim") {
        Ok(t) => t,
        Err(e) => return Err(e),
    };
    Ok(Reply::Str(to_string(str_trim(text.as_str()))))
}

/// `(str-upper text)`: the text in upper case.
pub fn native_str_upper<T>(args: &Vec<Arg<T>>) -> (r: Result<Reply<T>, String>)
    ensures
        match strings_args(args@, "str-upper"@, 1) {
            Err(m) => fails_with(r, m),
            Ok(v) => r matches Ok(Reply::Str(t)) && t@ == uppercase(v[0]),
        },
{
    proof {
        reveal_with_fuel(strings_args, 4);
    }
    let text = match require_string_arg(args, 0, "str-upper") {
        Ok(t) => t,
        Err(e) => return Err(e),
    };
    Ok(Reply::Str(str_to_uppercase(text.as_str())))
}

/// `(str-lower text)`: the text in lower case.
pub fn native_str_lower<T>(args: &Vec<Arg<T>>) -> (r: Result<Reply<T>, String>)
    ensures
        match strings_args(args@, "str-lower"@, 1) {
            Err(m) => fails_with(r, m),
            Ok(v) => r matches Ok(Reply::Str(t)) && t@ == lowercase(v[0]),
        },
{
    proof {
        reveal_with_fuel(strings_args, 4);
    }
    let text = match require_string_arg(args, 0, "str-lower") {
        Ok(t) => t,
        Err(e) => return Err(e),
    };
    Ok(Reply::Str(str_to_lowercase(text.as_str())))
}

/// `(str-starts-with text prefix)`: whether the text starts with the prefix.
pub fn native_str_starts_with<T>(args: &Vec<Arg<T>>) -> (r: Result<Reply<T>, String>)
    ensures
        match strings_args(args@, "str-starts-with"@, 2) {
            Err(m) => fails_with(r, m),
            Ok(v) => r == Ok::<Reply<T>, String>(truth(crate::bridge::starts_with(v[0], v[1]))),
        },
{
    proof {
        reveal_with_fuel(strings_args, 4);
    }
    let text = match require_string_arg(args, 0, "str-starts-with") {
        Ok(t) => t,
        Err(e) => return Err(e),
    };
    let prefix = match require_string_arg(args, 1, "str-starts-with") {
        Ok(t) => t,
        Err(e) => return Err(e),
    };
    let s = str_to_chars(text.as_str());
    if crate::bridge::chars_start_with(&s, prefix.as_str()) {
        Ok(Reply::True)
    } else {
        Ok(Reply::Nil)
    }
}

/// `(str-ends-with text suffix)`: whether the text ends with the suffix.
pub fn native_str_ends_with<T>(args: &Vec<Arg<T>>) -> (r: Result<Reply<T>, String>)
    ensures
        match strings_args(args@, "str-ends-with"@, 2) {
            Err(m) => fails_with(r, m),
            Ok(v) => r == Ok::<Reply<T>, String>(truth(crate::syntax::ends_with(v[0], v[1]))),
        },
{
    proof {
        reveal_with_fuel(strings_args, 4);
    }
    let text = match require_string_arg(args, 0, "str-ends-with") {
        Ok(t) => t,
        Err(e) => return Err(e),
    };
    let suffix = match require_string_arg(args, 1, "str-ends-with") {
        Ok(t) => t,
        Err(e) => return Err(e),
    };
    let s = str_to_chars(text.as_str());
    if crate::syntax::str_ends_with(&s, suffix.as_str()) {
        Ok(Reply::True)
    } else {
        Ok(Reply::Nil)
    }
}

/// The byte offset where a part first occurs in a text, -1 when it does not.
pub open spec fn byte_index_of(s: Seq<char>, p: Seq<char>) -> i32 {
    match find_from(s, p, 0) {
        Some(j) => byte_len(s.subrange(0, j)) as usize as i32,
        None => -1i32,
    }
}

/// `(str-index-of text part)`: the byte offset of the part's first
/// occurrence, -1 when there is none.
pub fn native_str_index_of<T>(args: &Vec<Arg<T>>) -> (r: Result<Reply<T>, String>)
    ensures
        match strings_args(args@, "str-index-of"@, 2) {
            Err(m) => fails_with(r, m),
            Ok(v) => r == Ok::<Reply<T>, String>(Reply::Int(byte_index_of(v[0], v[1]))),
        },
{
    proof {
        reveal_with_fuel(strings_args, 4);
    }
    let text = match require_string_arg(args, 0, "str-index-of") {
        Ok(t) => t,
        Err(e) => return Err(e),
    };
    let part = match require_string_arg(args, 1, "str-index-of") {
        Ok(t) => t,
        Err(e) => return Err(e),
    };
    let s = str_to_chars(text.as_str());
    let p = str_to_chars(part.as_str());
    match find_chars(&s, &p, 0) {
        Some(j) => {
            proof {
                lemma_find_from(s@, p@, 0);
            }
            let prefix = slice_string(&s, 0, j);
            let n = prefix.as_str().len();
            Ok(Reply::Int(n as i32))
        },
        None => Ok(Reply::Int(-1)),
    }
}

/// What `(str text ...)` answers: the strings one after the other, or the
/// message for the first argument that is not a string.
pub open spec fn str_all<T>(args: Seq<Arg<T>>, n: nat) -> Result<Seq<char>, Seq<char>>
    decreases n,
{
    if n == 0 {
        Ok(Seq::empty())
    } else {
        match str_all(args, (n - 1) as nat) {
            Err(m) => Err(m),
            Ok(t) => match args[n - 1].kind {
                ArgKind::Str(s) => Ok(t + s@),
                _ => Err("str: expected string as argument "@ + decimal(n) + ", got "@ + args[n - 1].shown@),
            },
        }
    }
}

/// `(str text ...)`: its string arguments one after the other.
pub fn native_str_variadic<T>(args: &Vec<Arg<T>>) -> (r: Result<Reply<T>, String>)
    ensures
        match str_all(args@, args@.len()) {
            Err(m) => fails_with(r, m),
            Ok(t) => r matches Ok(Reply::Str(s)) && s@ == t,
        },
{
    let mut result = String::new();
    let mut i: usize = 0;
    while i < args.len()
        invariant
            i <= args@.len(),
            str_all(args@, i as nat) == Ok::<Seq<char>, Seq<char>>(result@),
        decreases args@.len() - i,
    {
        match &args[i].kind {
            ArgKind::Str(s) => string_push_str(&mut result, s.as_str()),
            _ => {
                proof {
                    lemma_str_all_stops(args@, (i + 1) as nat, args@.len());
                }
                return Err(cat3(
                    cat2("str: expected string as argument ", decimal_text(i + 1).as_str()).as_str(),
                    ", got ",
                    args[i].shown.as_str(),
                ));
            },
        }
        i = i + 1;
    }
    Ok(Reply::Str(result))
}

/// Once an argument fails, every longer prefix fails with its message.
proof fn lemma_str_all_stops<T>(args: Seq<Arg<T>>, k: nat, n: nat)
    requires
        k <= n,
        str_all(args, k) is Err,
    ensures
        str_all(args, n) == str_all(args, k),
    decreases n - k,
{
    if k < n {
        lemma_str_all_stops(args, k, (n - 1) as nat);
    }
}

/// `(to-string value)`: a string as it is; any other value as it is printed.
pub fn native_to_string<T>(args: &Vec<Arg<T>>) -> (r: Result<Reply<T>, String>)
    ensures
        args@.len() == 0 ==> fails_with(r, "to-string: expected 1 argument, got 0"@),
        args@.len() > 0 ==> (r matches Ok(Reply::Str(s)) && s@ == (match args@[0].kind {
            ArgKind::Str(t) => t@,
            _ => args@[0].shown@,
        })),
{
    if args.len() == 0 {
        return Err(to_string("to-string: expected 1 argument, got 0"));
    }
    match &args[0].kind {
        ArgKind::Str(s) => Ok(Reply::Str(s.clone())),
        _ => Ok(Reply::Str(args[0].shown.clone())),
    }
}

/// `(parse-int text)`: the integer that the trimmed text spells.
pub fn native_parse_int<T>(args: &Vec<Arg<T>>) -> (r: Result<Reply<T>, String>)
    ensures
        match strings_args(args@, "parse-int"@, 1) {
            Err(m) => fails_with(r, m),
            Ok(v) => match parse_i32(trimmed(v[0])) {
                Ok(n) => r == Ok::<Reply<T>, String>(Reply::Int(n)),
                Err(e) => fails_with(r, "parse-int: cannot parse \""@ + v[0] + "\" as integer: "@ + int_error_text(e)),
            },
        },
{
    proof {
        reveal_with_fuel(strings_args, 4);
    }
    let text = match require_string_arg(args, 0, "parse-int") {
        Ok(t) => t,
        Err(e) => return Err(e),
    };
    match parse_int_text(str_trim(text.as_str())) {
        Ok(n) => Ok(Reply::Int(n)),
        Err(e) => {
            let why = match e {
                IntError::Empty => "cannot parse integer from empty string",
                IntError::InvalidDigit => "invalid digit found in string",
                IntError::PosOverflow => "number too large to fit in target type",
                IntError::NegOverflow => "number too small to fit in target type",
            };
            Err(cat2(cat3("parse-int: cannot parse \"", text.as_str(), "\" as integer: ").as_str(), why))
        },
    }
}

/// The texts of list items that must all be strings, or the message for the
/// first one that is not.
pub open spec fn item_strings<U>(items: Seq<Arg<U>>) -> Result<Seq<Seq<char>>, Seq<char>>
    decreases items.len(),
{
    if items.len() == 0 {
        Ok(Seq::empty())
    } else {
        match item_strings(items.drop_last()) {
            Err(m) => Err(m),
            Ok(v) => match items.last().kind {
                ArgKind::Str(s) => Ok(v.push(s@)),
                _ => Err("str-join: list element is not a string: "@ + items.last().shown@),
            },
        }
    }
}

proof fn lemma_item_strings_stops<U>(items: Seq<Arg<U>>, k: int)
    requires
        0 <= k <= items.len(),
        item_strings(items.subrange(0, k)) is Err,
    ensures
        item_strings(items) == item_strings(items.subrange(0, k)),
    decreases items.len() - k,
{
    if k < items.len() {
        assert(items.subrange(0, k + 1).drop_last() =~= items.subrange(0, k));
        lemma_item_strings_stops(items, k + 1);
    } else {
        assert(items.subrange(0, k) =~= items);
    }
}

/// What `(str-join list delimiter)` answers: the strings of the list with
/// the delimiter between each two, or the error message.
pub open spec fn join_outcome<U>(args: Seq<Arg<Arg<U>>>) -> Result<Seq<char>, Seq<char>> {
    if args.len() == 0 {
        Err("str-join: expected 2 arguments, got 0"@)
    } else {
        match args[0].kind {
            ArgKind::List(items) => match required_string(args, 1, "str-join"@) {
                Err(m) => Err(m),
                Ok(d) => match item_strings(items@) {
                    Err(m) => Err(m),
                    Ok(parts) => Ok(join_with(parts, d)),
                },
            },
            _ => Err("str-join: expected list as first arg, got "@ + args[0].shown@),
        }
    }
}

/// `(str-join list delimiter)`: the strings of the list with the delimiter
/// between each two.
pub fn native_str_join<U>(args: &Vec<Arg<Arg<U>>>) -> (r: Result<Reply<Arg<U>>, String>)
    ensures
        match join_outcome(args@) {
            Err(m) => fails_with(r, m),
            Ok(t) => r matches Ok(Reply::Str(s)) && s@ == t,
        },
{
    if args.len() == 0 {
        return Err(to_string("str-join: expected 2 arguments, got 0"));
    }
    let items = match &args[0].kind {
        ArgKind::List(items) => items,
        _ => return Err(cat2("str-join: expected list as first arg, got ", args[0].shown.as_str())),
    };
    let delimiter = match require_string_arg(args, 1, "str-join") {
        Ok(t) => t,
        Err(e) => return Err(e),
    };
    let mut strings: Vec<String> = Vec::new();
    let mut i: usize = 0;
    assert(items@.subrange(0, 0) =~= Seq::<Arg<U>>::empty());
    assert(strings_view(strings@) =~= Seq::<Seq<char>>::empty());
    while i < items.len()
        invariant
            i <= items@.len(),
            item_strings(items@.subrange(0, i as int)) == Ok::<Seq<Seq<char>>, Seq<char>>(strings_view(strings@)),
            args@.len() > 0,
            args@[0].kind matches ArgKind::List(l) && l@ == items@,
            required_string(args@, 1, "str-join"@) == Ok::<Seq<char>, Seq<char>>(delimiter@),
        decreases items@.len() - i,
    {
        assert(items@.subrange(0, i + 1).drop_last() =~= items@.subrange(0, i as int));
        match &items[i].kind {
            ArgKind::Str(s) => {
                let ghost before = strings_view(strings@);
                strings.push(s.clone());
                assert(strings_view(strings@) =~= before.push(s@));
            },
            _ => {
                proof {
                    lemma_item_strings_stops(items@, i + 1);
                }
                return Err(cat2("str-join: list element is not a string: ", items[i].shown.as_str()));
            },
        }
        i = i + 1;
    }
    assert(items@.subrange(0, items@.len() as int) =~= items@);
    Ok(Reply::Str(join_strings(&strings, delimiter.as_str())))
}

/// How an item is written by `str-concat`: a string as it is, anything else
/// as it is printed.
pub open spec fn item_text<U>(a: Arg<U>) -> Seq<char> {
    match a.kind {
        ArgKind::Str(s) => s@,
        _ => a.shown@,
    }
}

/// What `(str-concat list)` answers: the texts of the list's items one after
/// the other, or the error message.
pub open spec fn concat_outcome<U>(args: Seq<Arg<Arg<U>>>) -> Result<Seq<char>, Seq<char>> {
    if args.len() == 0 {
        Err("str-concat: expected 1 argument (list), got 0"@)
    } else {
        match args[0].kind {
            ArgKind::List(items) => Ok(join_with(items@.map_values(|a: Arg<U>| item_text(a)), Seq::empty())),
            _ => Err("str-concat: expected list as first arg, got "@ + args[0].shown@),
        }
    }
}

/// `(str-concat list)`: the texts of the list's items one after the other.
pub fn native_str_concat<U>(args: &Vec<Arg<Arg<U>>>) -> (r: Result<Reply<Arg<U>>, String>)
    ensures
        match concat_outcome(args@) {
            Err(m) => fails_with(r, m),
            Ok(t) => r matches Ok(Reply::Str(s)) && s@ == t,
        },
{
    if args.len() == 0 {
        return Err(to_string("str-concat: expected 1 argument (list), got 0"));
    }
    let items = match &args[0].kind {
        ArgKind::List(items) => items,
        _ => return Err(cat2("str-concat: expected list as first arg, got ", args[0].shown.as_str())),
    };
    let mut strings: Vec<String> = Vec::new();
    let mut i: usize = 0;
    while i < items.len()
        invariant
            i <= items@.len(),
            strings@.len() == i,
            strings_view(strings@) == items@.subrange(0, i as int).map_values(|a: Arg<U>| item_text(a)),
        decreases items@.len() - i,
    {
        let ghost before = strings_view(strings@);
        match &items[i].kind {
            ArgKind::Str(s) => {
                let t = to_string(s.as_str());
                strings.push(t);
                assert(strings@[i as int] == t);
                assert(strings_view(strings@)[i as int] == item_text(items@[i as int]));
            },
            _ => {
                let t = to_string(items[i].shown.as_str());
                strings.push(t);
                assert(strings@[i as int] == t);
                assert(strings_view(strings@)[i as int] == item_text(items@[i as int]));
            },
        }
        proof {
            let f = |a: Arg<U>| item_text(a);
            assert(items@.subrange(0, i + 1).map_values(f) =~= items@.subrange(0, i as int).map_values(f).push(
                item_text(items@[i as int]),
            ));
            assert(strings_view(strings@) =~= before.push(item_text(items@[i as int])));
        }
        i = i + 1;
    }
    assert(items@.subrange(0, items@.len() as int) =~= items@);
    proof {
        reveal_strlit("");
        assert(""@ =~= Seq::<char>::empty());
    }
    Ok(Reply::Str(join_strings(&strings, "")))
}

/// What `(str-substring text start end)` reads: the text and the byte
/// offsets, or the error message for a missing or wrong argument.
pub open spec fn substring_args<T>(args: Seq<Arg<T>>) -> Result<(Seq<char>, usize, usize), Seq<char>> {
    match required_string(args, 0, "str-substring"@) {
        Err(m) => Err(m),
        Ok(t) => match required_int(args, 1, "str-substring"@) {
            Err(m) => Err(m),
            Ok(a) => match required_int(args, 2, "str-substring"@) {
                Err(m) => Err(m),
                Ok(b) => Ok((t, a as usize, b as usize)),
            },
        },
    }
}

/// `(str-substring text start end)`: the text between two byte offsets.
/// Offsets out of order or past the end are an error.
pub fn native_str_substring<T>(args: &Vec<Arg<T>>) -> (r: Result<Reply<T>, String>)
    requires
        substring_args(args@) matches Ok((t, a, b)) ==> (a <= b <= byte_len(t) as usize ==> vstd::utf8::is_char_boundary(
            vstd::utf8::encode_utf8(t),
            a as int,
        ) && vstd::utf8::is_char_boundary(vstd::utf8::encode_utf8(t), b as int)),
    ensures
        match substring_args(args@) {
            Err(m) => fails_with(r, m),
            Ok((t, a, b)) => if a <= b <= byte_len(t) as usize {
                r matches Ok(Reply::Str(s)) && vstd::utf8::encode_utf8(s@) == vstd::utf8::encode_utf8(t).subrange(
                    a as int,
                    b as int,
                )
            } else {
                fails_with(
                    r,
                    "str-substring: indices ["@ + decimal(a as nat) + ", "@ + decimal(b as nat)
                        + ") out of bounds for string of length "@ + decimal((byte_len(t) as usize) as nat),
                )
            },
        },
{
    let text = match require_string_arg(args, 0, "str-substring") {
        Ok(t) => t,
        Err(e) => return Err(e),
    };
    let start = match require_int_arg(args, 1, "str-substring") {
        Ok(n) => n as usize,
        Err(e) => return Err(e),
    };
    let end = match require_int_arg(args, 2, "str-substring") {
        Ok(n) => n as usize,
        Err(e) => return Err(e),
    };
    let t = text.as_str();
    let len = t.len();
    proof {
        vstd::utf8::encode_utf8_valid_utf8(t@);
    }
    if start > len || end > len || start > end {
        return Err(cat6(
            "str-substring: indices [",
            decimal_text(start).as_str(),
            ", ",
            decimal_text(end).as_str(),
            ") out of bounds for string of length ",
            decimal_text(len).as_str(),
        ));
    }
    let ghost bytes = vstd::utf8::encode_utf8(t@);
    let (head, _) = t.split_at(end);
    proof {
        vstd::utf8::valid_utf8_split(bytes, end as int);
        let hb = bytes.subrange(0, end as int);
        assert(vstd::utf8::encode_utf8(head@) =~= hb);
        if 0 < start < end {
            vstd::utf8::is_char_boundary_iff_not_is_continuation_byte(bytes, start as int);
            vstd::utf8::is_char_boundary_iff_not_is_continuation_byte(hb, start as int);
        }
        if start == end {
            vstd::utf8::is_char_boundary_start_end_of_seq(hb);
        }
    }
    let (_, mid) = head.split_at(start);
    proof {
        assert(vstd::utf8::encode_utf8(mid@) =~= bytes.subrange(start as int, end as int));
    }
    Ok(Reply::Str(to_string(mid)))
}

proof fn lemma_join_prepend(a: Seq<char>, rest: Seq<Seq<char>>, d: Seq<char>)
    requires
        rest.len() > 0,
    ensures
        join_with(seq![a] + rest, d) == a + d + join_with(rest, d),
    decreases rest.len(),
{
    let all = seq![a] + rest;
    if rest.len() == 1 {
        assert(all.drop_last() =~= seq![a]);
        assert(all.last() == rest[0]);
        assert(a + d + rest[0] =~= join_with(seq![a], d) + d + rest[0]);
    } else {
        assert(all.drop_last() =~= seq![a] + rest.drop_last());
        lemma_join_prepend(a, rest.drop_last(), d);
        assert(all.last() == rest.last());
        assert(join_with(all, d) =~= a + d + join_with(rest.drop_last(), d) + d + rest.last());
    }
}

proof fn lemma_split_from_nonempty(s: Seq<char>, d: Seq<char>, pos: int)
    requires
        d.len() > 0,
        0 <= pos <= s.len(),
    ensures
        split_from(s, d, pos).len() > 0,
{
}

proof fn lemma_join_split_from(s: Seq<char>, d: Seq<char>, pos: int)
    requires
        d.len() > 0,
        0 <= pos <= s.len(),
    ensures
        join_with(split_from(s, d, pos), d) == s.subrange(pos, s.len() as int),
    decreases s.len() - pos,
{
    lemma_find_from(s, d, pos);
    match find_from(s, d, pos) {
        Some(j) => {
            let next = j + d.len();
            lemma_join_split_from(s, d, next);
            lemma_split_from_nonempty(s, d, next);
            let rest = split_from(s, d, next);
            assert(split_from(s, d, pos) == seq![s.subrange(pos, j)] + rest);
            lemma_join_prepend(s.subrange(pos, j), rest, d);
            assert(s.subrange(j, next) == d);
            assert(s.subrange(pos, s.len() as int) =~= s.subrange(pos, j) + d + s.subrange(next, s.len() as int));
        },
        None => {
            assert(split_from(s, d, pos) == seq![s.subrange(pos, s.len() as int)]);
        },
    }
}

proof fn lemma_join_chars(s: Seq<char>, n: int)
    requires
        0 <= n <= s.len(),
    ensures
        join_with(seq![Seq::<char>::empty()] + Seq::new(n as nat, |i: int| seq![s[i]]), Seq::empty()) == s.subrange(
            0,
            n,
        ),
    decreases n,
{
    let parts = seq![Seq::<char>::empty()] + Seq::new(n as nat, |i: int| seq![s[i]]);
    if n == 0 {
        assert(parts =~= seq![Seq::<char>::empty()]);
        assert(s.subrange(0, 0) =~= Seq::<char>::empty());
    } else {
        lemma_join_chars(s, n - 1);
        assert(parts.drop_last() =~= seq![Seq::<char>::empty()] + Seq::new((n - 1) as nat, |i: int| seq![s[i]]));
        assert(parts.last() == seq![s[n - 1]]);
        assert(s.subrange(0, n) =~= s.subrange(0, n - 1) + Seq::<char>::empty() + seq![s[n - 1]]);
    }
}

/// Joining the parts of a split with the delimiter gives the text back:
/// `(str-join (str-split text d) d)` is `text`, for every delimiter, the
/// empty one included.
pub proof fn join_undoes_split(s: Seq<char>, d: Seq<char>)
    ensures
        join_with(split_by(s, d), d) == s,
{
    if d.len() > 0 {
        lemma_join_split_from(s, d, 0);
        assert(s.subrange(0, s.len() as int) =~= s);
    } else {
        let e = Seq::<char>::empty();
        assert(d =~= e);
        let middle = seq![e] + Seq::new(s.len(), |i: int| seq![s[i]]);
        let parts = middle + seq![e];
        assert(split_by(s, d) == parts);
        assert(parts.drop_last() =~= middle);
        assert(parts.last() == e);
        lemma_join_chars(s, s.len() as int);
        assert(s.subrange(0, s.len() as int) =~= s);
        assert(join_with(parts, d) =~= join_with(middle, d) + e + e);
    }
}

/// Replacing a text by itself changes nothing: `(str-replace text x x)` is
/// `text`.
pub proof fn replace_by_itself_is_identity(s: Seq<char>, x: Seq<char>)
    ensures
        replaced(s, x, x) == s,
{
    join_undoes_split(s, x);
}
} // verus!
