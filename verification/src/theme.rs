//! Theme: color values, the parser for color strings, and the map from color
//! slot names ("status-bar-bg", "gutter-fg", ...) to colors.
use crate::str_map::StrMap;
use crate::text::{ascii_lower_char, is_whitespace, lowercase, str_eq, str_to_lowercase, str_trim, string_push, string_push_str, trimmed};
use vstd::prelude::*;
use vstd::utf8::{encode_utf8, is_char_boundary};

verus! {

broadcast use vstd::string::group_string_axioms;

/// Named ANSI colors supported by the theme system.
#[derive(Debug, Clone, Copy, PartialEq, Eq, Structural)]
pub enum NamedColor {
    Black,
    Red,
    Green,
    Yellow,
    Blue,
    Magenta,
    Cyan,
    White,
    DarkGray,
    LightRed,
    LightGreen,
    LightYellow,
    LightBlue,
    LightMagenta,
    LightCyan,
}

/// A theme color value: either an RGB triple or a named ANSI color.
#[derive(Debug, Clone, Copy, PartialEq, Eq, Structural)]
pub enum ThemeColor {
    Rgb(u8, u8, u8),
    Named(NamedColor),
}

/// A theme maps color slot names to colors.
pub type Theme = StrMap<ThemeColor>;

/// Creates a new empty theme.
pub fn new_theme() -> (t: Theme)
    ensures
        t@ == Map::<Seq<char>, ThemeColor>::empty(),
{
    StrMap::new()
}

/// The value of one hexadecimal digit byte ('0'-'9', 'a'-'f', 'A'-'F').
pub open spec fn hex_digit(c: u8) -> Option<u8> {
    if 48 <= c <= 57 {
        Some((c - 48) as u8)
    } else if 97 <= c <= 102 {
        Some((c - 87) as u8)
    } else if 65 <= c <= 70 {
        Some((c - 55) as u8)
    } else {
        None
    }
}

/// What `u8::from_str_radix(_, 16)` gives for two bytes: an optional '+' sign
/// followed by one digit, or two digits.
pub open spec fn hex_pair(x: u8, y: u8) -> Option<u8> {
    if x == 43 {
        hex_digit(y)
    } else {
        match (hex_digit(x), hex_digit(y)) {
            (Some(a), Some(b)) => Some((16 * a + b) as u8),
            _ => None,
        }
    }
}

/// The color written "#rrggbb" in the bytes `b`, if it is one.
pub open spec fn hex_color(b: Seq<u8>) -> Option<ThemeColor> {
    if b.len() != 7 || b[0] != 35 {
        None
    } else {
        match (hex_pair(b[1], b[2]), hex_pair(b[3], b[4]), hex_pair(b[5], b[6])) {
            (Some(r), Some(g), Some(bl)) => Some(ThemeColor::Rgb(r, g, bl)),
            _ => None,
        }
    }
}

/// The named color that `t` names, if any ("dark-gray" and "darkgray" alike).
pub open spec fn named_color(t: Seq<char>) -> Option<NamedColor> {
    if t == "black"@ {
        Some(NamedColor::Black)
    } else if t == "red"@ {
        Some(NamedColor::Red)
    } else if t == "green"@ {
        Some(NamedColor::Green)
    } else if t == "yellow"@ {
        Some(NamedColor::Yellow)
    } else if t == "blue"@ {
        Some(NamedColor::Blue)
    } else if t == "magenta"@ {
        Some(NamedColor::Magenta)
    } else if t == "cyan"@ {
        Some(NamedColor::Cyan)
    } else if t == "white"@ {
        Some(NamedColor::White)
    } else if t == "dark-gray"@ || t == "darkgray"@ {
        Some(NamedColor::DarkGray)
    } else if t == "light-red"@ || t == "lightred"@ {
        Some(NamedColor::LightRed)
    } else if t == "light-green"@ || t == "lightgreen"@ {
        Some(NamedColor::LightGreen)
    } else if t == "light-yellow"@ || t == "lightyellow"@ {
        Some(NamedColor::LightYellow)
    } else if t == "light-blue"@ || t == "lightblue"@ {
        Some(NamedColor::LightBlue)
    } else if t == "light-magenta"@ || t == "lightmagenta"@ {
        Some(NamedColor::LightMagenta)
    } else if t == "light-cyan"@ || t == "lightcyan"@ {
        Some(NamedColor::LightCyan)
    } else {
        None
    }
}

/// The color that the normalized (trimmed, lowercased) text `t` denotes:
/// none for "default", else an "#rrggbb" color, else a named color.
pub open spec fn color_of(t: Seq<char>) -> Option<ThemeColor> {
    if t == "default"@ {
        None
    } else {
        match hex_color(encode_utf8(t)) {
            Some(c) => Some(c),
            None => match named_color(t) {
                Some(n) => Some(ThemeColor::Named(n)),
                None => None,
            },
        }
    }
}

/// Whether the "#rrggbb" reading of `t` cuts its bytes only between chars: a
/// 7-byte text starting with '#' is cut after its third byte, and after its fifth
/// when the first pair reads as a number.
pub open spec fn hex_cuts_ok(t: Seq<char>) -> bool {
    let b = encode_utf8(t);
    b.len() == 7 && b[0] == 35 ==> {
        &&& is_char_boundary(b, 3)
        &&& (hex_pair(b[1], b[2]) is Some ==> is_char_boundary(b, 5))
    }
}

/// The text that `parse_color` reads: `input` trimmed, then lowercased.
pub open spec fn normalized(input: Seq<char>) -> Seq<char> {
    lowercase(trimmed(input))
}

fn hex_digit_of(c: u8) -> (r: Option<u8>)
    ensures
        r == hex_digit(c),
{
    if 48 <= c && c <= 57 {
        Some(c - 48)
    } else if 97 <= c && c <= 102 {
        Some(c - 87)
    } else if 65 <= c && c <= 70 {
        Some(c - 55)
    } else {
        None
    }
}

fn hex_pair_of(x: u8, y: u8) -> (r: Option<u8>)
    ensures
        r == hex_pair(x, y),
{
    if x == 43 {
        return hex_digit_of(y);
    }
    match (hex_digit_of(x), hex_digit_of(y)) {
        (Some(a), Some(b)) => Some(16 * a + b),
        _ => None,
    }
}

fn parse_named_color(t: &str) -> (r: Option<NamedColor>)
    ensures
        r == named_color(t@),
{
    if str_eq(t, "black") {
        Some(NamedColor::Black)
    } else if str_eq(t, "red") {
        Some(NamedColor::Red)
    } else if str_eq(t, "green") {
        Some(NamedColor::Green)
    } else if str_eq(t, "yellow") {
        Some(NamedColor::Yellow)
    } else if str_eq(t, "blue") {
        Some(NamedColor::Blue)
    } else if str_eq(t, "magenta") {
        Some(NamedColor::Magenta)
    } else if str_eq(t, "cyan") {
        Some(NamedColor::Cyan)
    } else if str_eq(t, "white") {
        Some(NamedColor::White)
    } else if str_eq(t, "dark-gray") || str_eq(t, "darkgray") {
        Some(NamedColor::DarkGray)
    } else if str_eq(t, "light-red") || str_eq(t, "lightred") {
        Some(NamedColor::LightRed)
    } else if str_eq(t, "light-green") || str_eq(t, "lightgreen") {
        Some(NamedColor::LightGreen)
    } else if str_eq(t, "light-yellow") || str_eq(t, "lightyellow") {
        Some(NamedColor::LightYellow)
    } else if str_eq(t, "light-blue") || str_eq(t, "lightblue") {
        Some(NamedColor::LightBlue)
    } else if str_eq(t, "light-magenta") || str_eq(t, "lightmagenta") {
        Some(NamedColor::LightMagenta)
    } else if str_eq(t, "light-cyan") || str_eq(t, "lightcyan") {
        Some(NamedColor::LightCyan)
    } else {
        None
    }
}

/// Reads "#rrggbb" (7 bytes, '#' then three hex pairs) as an RGB color.
fn parse_hex_color(t: &str) -> (r: Option<ThemeColor>)
    ensures
        r == hex_color(encode_utf8(t@)),
{
    let b = t.as_bytes();
    if b.len() != 7 || b[0] != 35 {
        return None;
    }
    let r = hex_pair_of(b[1], b[2]);
    let g = hex_pair_of(b[3], b[4]);
    let bl = hex_pair_of(b[5], b[6]);
    match (r, g, bl) {
        (Some(r), Some(g), Some(bl)) => Some(ThemeColor::Rgb(r, g, bl)),
        _ => None,
    }
}

/// Parses already trimmed and lowercased color text: `None` for "default",
/// an RGB color for "#rrggbb", a named color for its name, `None` otherwise.
pub fn parse_normalized_color(t: &str) -> (r: Option<ThemeColor>)
    requires
        hex_cuts_ok(t@),
    ensures
        r == color_of(t@),
{
    if str_eq(t, "default") {
        return None;
    }
    match parse_hex_color(t) {
        Some(c) => {
            return Some(c);
        },
        None => {},
    }
    match parse_named_color(t) {
        Some(n) => Some(ThemeColor::Named(n)),
        None => None,
    }
}

/// Parses a color string: it is trimmed and lowercased, then read as
/// "default" (no color), "#rrggbb" (hex digits, each pair as `u8::from_str_radix`
/// reads it) or a named ANSI color ("red", "dark-gray", ...). `None` for
/// "default" and for text that is none of these.
pub fn parse_color(input: &str) -> (r: Option<ThemeColor>)
    requires
        hex_cuts_ok(normalized(input@)),
    ensures
        r == color_of(normalized(input@)),
{
    let t = str_to_lowercase(str_trim(input));
    parse_normalized_color(t.as_str())
}

/// Parses a color string as `parse_color` does, where `parse_color` can take it:
/// `None` when the "#rrggbb" reading would cut a char (see `hex_cuts_ok`),
/// else `Some` of what `parse_color` returns.
pub fn parse_color_checked(input: &str) -> (r: Option<Option<ThemeColor>>)
    ensures
        r is None <==> !hex_cuts_ok(normalized(input@)),
        r matches Some(c) ==> c == color_of(normalized(input@)),
{
    let t = str_to_lowercase(str_trim(input));
    let s = t.as_str();
    let b = s.as_bytes();
    if b.len() == 7 && b[0] == 35 {
        if !s.is_char_boundary(3) {
            return None;
        }
        if hex_pair_of(b[1], b[2]).is_some() && !s.is_char_boundary(5) {
            return None;
        }
    }
    Some(parse_normalized_color(s))
}

/// Looks up the color of slot `key`, or `fallback` when the theme has none.
pub fn lookup_color(theme: &Theme, key: &str, fallback: ThemeColor) -> (r: ThemeColor)
    ensures
        r == (if theme@.contains_key(key@) {
            theme@[key@]
        } else {
            fallback
        }),
{
    match theme.get(key) {
        Some(c) => *c,
        None => fallback,
    }
}


/// The lowercase hexadecimal digit for `n` (below 16).
pub open spec fn hex_char(n: u8) -> char {
    if n < 10 {
        (n + 48) as char
    } else {
        (n + 87) as char
    }
}

/// The names under which `format_theme_color` writes named colors.
pub open spec fn color_name(n: NamedColor) -> Seq<char> {
    match n {
        NamedColor::Black => "black"@,
        NamedColor::Red => "red"@,
        NamedColor::Green => "green"@,
        NamedColor::Yellow => "yellow"@,
        NamedColor::Blue => "blue"@,
        NamedColor::Magenta => "magenta"@,
        NamedColor::Cyan => "cyan"@,
        NamedColor::White => "white"@,
        NamedColor::DarkGray => "dark-gray"@,
        NamedColor::LightRed => "light-red"@,
        NamedColor::LightGreen => "light-green"@,
        NamedColor::LightYellow => "light-yellow"@,
        NamedColor::LightBlue => "light-blue"@,
        NamedColor::LightMagenta => "light-magenta"@,
        NamedColor::LightCyan => "light-cyan"@,
    }
}

/// The text of a color: "#rrggbb" in lowercase hex digits, or the color's name.
pub open spec fn color_text(c: ThemeColor) -> Seq<char> {
    match c {
        ThemeColor::Rgb(r, g, b) => seq![
            '#',
            hex_char(r / 16),
            hex_char(r % 16),
            hex_char(g / 16),
            hex_char(g % 16),
            hex_char(b / 16),
            hex_char(b % 16),
        ],
        ThemeColor::Named(n) => color_name(n),
    }
}

fn hex_char_of(n: u8) -> (c: char)
    requires
        n < 16,
    ensures
        c == hex_char(n),
{
    if n < 10 {
        (n + 48) as char
    } else {
        (n + 87) as char
    }
}

fn push_hex_byte(s: &mut String, n: u8)
    ensures
        final(s)@ == old(s)@.push(hex_char(n / 16)).push(hex_char(n % 16)),
{
    string_push(s, hex_char_of(n / 16));
    string_push(s, hex_char_of(n % 16));
}

/// Writes a color as text: "#rrggbb" with lowercase hex digits for RGB colors,
/// the color's name (such as "dark-gray") for named colors.
pub fn format_theme_color(color: &ThemeColor) -> (s: String)
    ensures
        s@ == color_text(*color),
{
    match color {
        ThemeColor::Rgb(r, g, b) => {
            let mut s = String::new();
            string_push(&mut s, '#');
            push_hex_byte(&mut s, *r);
            push_hex_byte(&mut s, *g);
            push_hex_byte(&mut s, *b);
            assert(s@ =~= color_text(*color));
            s
        },
        ThemeColor::Named(n) => {
            let name: &str = match n {
                NamedColor::Black => "black",
                NamedColor::Red => "red",
                NamedColor::Green => "green",
                NamedColor::Yellow => "yellow",
                NamedColor::Blue => "blue",
                NamedColor::Magenta => "magenta",
                NamedColor::Cyan => "cyan",
                NamedColor::White => "white",
                NamedColor::DarkGray => "dark-gray",
                NamedColor::LightRed => "light-red",
                NamedColor::LightGreen => "light-green",
                NamedColor::LightYellow => "light-yellow",
                NamedColor::LightBlue => "light-blue",
                NamedColor::LightMagenta => "light-magenta",
                NamedColor::LightCyan => "light-cyan",
            };
            let mut s = String::new();
            string_push_str(&mut s, name);
            s
        },
    }
}

proof fn lemma_hex_char_reads_back(n: u8)
    requires
        n < 16,
    ensures
        (hex_char(n) as u32) < 128,
        hex_digit(hex_char(n) as u8) == Some(n),
        hex_char(n) as u8 != 43,
{
}

/// Parsing reads back what formatting writes: the text of every color is
/// read as that color, and the "#rrggbb" reading of it cuts no char.
pub proof fn parse_reads_back_formatted_color(c: ThemeColor)
    ensures
        hex_cuts_ok(color_text(c)),
        color_of(color_text(c)) == Some(c),
{
    let t = color_text(c);
    match c {
        ThemeColor::Rgb(r, g, b) => {
            lemma_hex_char_reads_back(r / 16);
            lemma_hex_char_reads_back(r % 16);
            lemma_hex_char_reads_back(g / 16);
            lemma_hex_char_reads_back(g % 16);
            lemma_hex_char_reads_back(b / 16);
            lemma_hex_char_reads_back(b % 16);
            assert(vstd::utf8::is_ascii_chars(t));
            vstd::utf8::is_ascii_chars_encode_utf8(t);
            let bytes = encode_utf8(t);
            vstd::utf8::encode_utf8_valid_utf8(t);
            vstd::utf8::is_char_boundary_iff_is_leading_byte(bytes, 3);
            vstd::utf8::is_char_boundary_iff_is_leading_byte(bytes, 5);
            reveal_strlit("default");
            assert(t != "default"@);
            assert(bytes[0] == 35);
            assert(hex_pair(bytes[1], bytes[2]) == Some(r));
            assert(hex_pair(bytes[3], bytes[4]) == Some(g));
            assert(hex_pair(bytes[5], bytes[6]) == Some(b));
        },
        ThemeColor::Named(n) => {
            reveal_strlit("default");
            reveal_strlit("black");
            reveal_strlit("red");
            reveal_strlit("green");
            reveal_strlit("yellow");
            reveal_strlit("blue");
            reveal_strlit("magenta");
            reveal_strlit("cyan");
            reveal_strlit("white");
            reveal_strlit("dark-gray");
            reveal_strlit("darkgray");
            reveal_strlit("light-red");
            reveal_strlit("lightred");
            reveal_strlit("light-green");
            reveal_strlit("lightgreen");
            reveal_strlit("light-yellow");
            reveal_strlit("lightyellow");
            reveal_strlit("light-blue");
            reveal_strlit("lightblue");
            reveal_strlit("light-magenta");
            reveal_strlit("lightmagenta");
            reveal_strlit("light-cyan");
            reveal_strlit("lightcyan");
            assert(vstd::utf8::is_ascii_chars(t));
            vstd::utf8::is_ascii_chars_encode_utf8(t);
            assert(t != "default"@);
            assert(encode_utf8(t).len() != 7 || encode_utf8(t)[0] != 35);
        },
    }
}

/// A text of ASCII chars with no uppercase letter and no White_Space char.
pub open spec fn plain_lowercase_text(t: Seq<char>) -> bool {
    forall|i: int| 0 <= i < t.len() ==> (t[i] as u32) < 128 && !('A' <= #[trigger] t[i] <= 'Z') && !is_whitespace(t[i])
}

/// Reading a plain lowercase text as a color reads it as it is: trimming
/// and lowercasing leave it unchanged.
proof fn lemma_plain_text_normalized(t: Seq<char>)
    requires
        t.len() > 0,
        plain_lowercase_text(t),
    ensures
        normalized(t) == t,
{
    assert(!is_whitespace(t[0]));
    assert(crate::text::trim_start(t) == t);
    assert(!is_whitespace(t.last()));
    assert(crate::text::trim_end(t) == t);
    assert(trimmed(t) == t);
    assert(crate::text::all_ascii(t));
    assert(lowercase(t) =~= t) by {
        assert forall|i: int| 0 <= i < t.len() implies ascii_lower_char(t[i]) == t[i] by {
            assert(!('A' <= t[i] <= 'Z'));
        }
    }
}

proof fn lemma_hex_char_plain(n: u8)
    requires
        n < 16,
    ensures
        (hex_char(n) as u32) < 128,
        !('A' <= hex_char(n) <= 'Z'),
        !is_whitespace(hex_char(n)),
{
}

/// The text of every color is plain lowercase.
proof fn lemma_color_text_plain(c: ThemeColor)
    ensures
        color_text(c).len() > 0,
        plain_lowercase_text(color_text(c)),
{
    match c {
        ThemeColor::Rgb(r, g, b) => {
            lemma_hex_char_plain(r / 16);
            lemma_hex_char_plain(r % 16);
            lemma_hex_char_plain(g / 16);
            lemma_hex_char_plain(g % 16);
            lemma_hex_char_plain(b / 16);
            lemma_hex_char_plain(b % 16);
            let t = color_text(c);
            assert forall|i: int| 0 <= i < t.len() implies (t[i] as u32) < 128 && !('A' <= #[trigger] t[i] <= 'Z')
                && !is_whitespace(t[i]) by {
                assert(0 <= i < 7);
            }
        },
        ThemeColor::Named(n) => {
            reveal_strlit("black");
            reveal_strlit("red");
            reveal_strlit("green");
            reveal_strlit("yellow");
            reveal_strlit("blue");
            reveal_strlit("magenta");
            reveal_strlit("cyan");
            reveal_strlit("white");
            reveal_strlit("dark-gray");
            reveal_strlit("light-red");
            reveal_strlit("light-green");
            reveal_strlit("light-yellow");
            reveal_strlit("light-blue");
            reveal_strlit("light-magenta");
            reveal_strlit("light-cyan");
            let t = color_text(c);
            assert forall|i: int| 0 <= i < t.len() implies (t[i] as u32) < 128 && !('A' <= #[trigger] t[i] <= 'Z')
                && !is_whitespace(t[i]) by {
                assert('a' <= t[i] <= 'z' || t[i] == '-');
            }
        },
    }
}

/// `parse_color` reads back what `format_theme_color` writes: for every
/// color `c`, the text it is written as can be read (its hex digits cut no
/// char, after trimming and lowercasing), and is read as `c`.
pub proof fn parse_color_reads_back_format(c: ThemeColor)
    ensures
        hex_cuts_ok(normalized(color_text(c))),
        color_of(normalized(color_text(c))) == Some(c),
{
    lemma_color_text_plain(c);
    lemma_plain_text_normalized(color_text(c));
    parse_reads_back_formatted_color(c);
}

} // verus!
