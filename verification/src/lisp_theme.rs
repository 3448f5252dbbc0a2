//! The Lisp primitives on themes: setting and reading a color of the active
//! theme, defining named themes, and loading one into the active theme.
use crate::bridge::{
    cat2, cat3, cat5, decimal, decimal_text, extract_string_arg, extract_string_arg_at, first_string, string_at, Arg,
    ArgKind, Reply,
};
use crate::lisp_editor::{answers_nil, fails_with};
use crate::str_map::StrMap;
use crate::text::{ascii_lower_char, str_to_chars, str_trim, to_string, trimmed};
use crate::theme::{color_of, color_text, format_theme_color, hex_cuts_ok, normalized, parse_color, Theme, ThemeColor};
use vstd::prelude::*;

verus! {

/// Whether two texts are equal when ASCII letters are compared without case.
pub open spec fn eq_ignore_ascii_case(a: Seq<char>, b: Seq<char>) -> bool {
    a.len() == b.len() && forall|i: int| 0 <= i < a.len() ==> ascii_lower_char(a[i]) == ascii_lower_char(b[i])
}

fn lower_ascii(c: char) -> (d: char)
    ensures
        d == ascii_lower_char(c),
{
    if 'A' <= c && c <= 'Z' {
        ((c as u8) + 32) as char
    } else {
        c
    }
}

/// Whether `a` and `b` are equal when ASCII letters are compared without case.
pub fn str_eq_ignore_ascii_case(a: &str, b: &str) -> (r: bool)
    ensures
        r == eq_ignore_ascii_case(a@, b@),
{
    let x = str_to_chars(a);
    let y = str_to_chars(b);
    if x.len() != y.len() {
        return false;
    }
    let mut i: usize = 0;
    while i < x.len()
        invariant
            x@ == a@,
            y@ == b@,
            x@.len() == y@.len(),
            i <= x@.len(),
            forall|j: int| 0 <= j < i ==> ascii_lower_char(x@[j]) == ascii_lower_char(y@[j]),
        decreases x@.len() - i,
    {
        if lower_ascii(x[i]) != lower_ascii(y[i]) {
            return false;
        }
        i = i + 1;
    }
    true
}

/// What `(set-theme-color key color)` does to the active theme: the error
/// message, or the theme after it.
pub open spec fn set_theme_color_outcome<T>(theme: Map<Seq<char>, ThemeColor>, args: Seq<Arg<T>>) -> Result<
    Map<Seq<char>, ThemeColor>,
    Seq<char>,
> {
    match string_at(args, 0, "set-theme-color"@, "key"@) {
        Err(m) => Err(m),
        Ok(key) => match string_at(args, 1, "set-theme-color"@, "color-value"@) {
            Err(m) => Err(m),
            Ok(t) => match color_of(normalized(t)) {
                Some(c) => Ok(theme.insert(key, c)),
                None => if eq_ignore_ascii_case(trimmed(t), "default"@) {
                    Ok(theme.remove(key))
                } else {
                    Err("set-theme-color: invalid color \""@ + t
                        + "\". Expected #rrggbb, named color, or \"default\""@)
                },
            },
        },
    }
}

/// `(set-theme-color key color)`: sets a color of the active theme;
/// "default" removes the key.
pub fn set_theme_color<T>(theme: &mut Theme, args: &Vec<Arg<T>>) -> (r: Result<Reply<T>, String>)
    requires
        string_at(args@, 0, "set-theme-color"@, "key"@) is Ok ==> (string_at(args@, 1, "set-theme-color"@, "color-value"@)
            matches Ok(t) ==> hex_cuts_ok(normalized(t))),
    ensures
        match set_theme_color_outcome(old(theme)@, args@) {
            Err(m) => fails_with(r, m) && final(theme)@ == old(theme)@,
            Ok(t) => answers_nil(r) && final(theme)@ == t,
        },
{
    let key = match extract_string_arg_at(args, 0, "set-theme-color", "key") {
        Ok(t) => t,
        Err(e) => return Err(e),
    };
    let color_str = match extract_string_arg_at(args, 1, "set-theme-color", "color-value") {
        Ok(t) => t,
        Err(e) => return Err(e),
    };
    match parse_color(color_str.as_str()) {
        Some(color) => {
            theme.insert(key, color);
            Ok(Reply::Nil)
        },
        None => {
            if str_eq_ignore_ascii_case(str_trim(color_str.as_str()), "default") {
                theme.remove(key.as_str());
                Ok(Reply::Nil)
            } else {
                Err(cat3(
                    "set-theme-color: invalid color \"",
                    color_str.as_str(),
                    "\". Expected #rrggbb, named color, or \"default\"",
                ))
            }
        },
    }
}

/// `(get-theme-color key)`: the color of a key of the active theme as text
/// ("#rrggbb" or a color name), nil when the theme has none.
pub fn get_theme_color<T>(theme: &Theme, args: &Vec<Arg<T>>) -> (r: Result<Reply<T>, String>)
    ensures
        match first_string(args@, "get-theme-color"@) {
            Err(m) => fails_with(r, m),
            Ok(key) => if theme@.contains_key(key) {
                r matches Ok(Reply::Str(s)) && s@ == color_text(theme@[key])
            } else {
                answers_nil(r)
            },
        },
{
    let key = match extract_string_arg(args, "get-theme-color") {
        Ok(t) => t,
        Err(e) => return Err(e),
    };
    match theme.get(key.as_str()) {
        Some(c) => Ok(Reply::Str(format_theme_color(c))),
        None => Ok(Reply::Nil),
    }
}

/// The theme that key-color pairs give, added to `acc` from the first pair
/// on; the message of the first pair that is not two strings naming a color.
pub open spec fn theme_from_pairs<T>(pairs: Seq<Arg<T>>, acc: Map<Seq<char>, ThemeColor>) -> Result<
    Map<Seq<char>, ThemeColor>,
    Seq<char>,
>
    decreases pairs.len(),
{
    if pairs.len() < 2 {
        Ok(acc)
    } else {
        match pairs[0].kind {
            ArgKind::Str(k) => match pairs[1].kind {
                ArgKind::Str(c) => match color_of(normalized(c@)) {
                    Some(color) => theme_from_pairs(pairs.subrange(2, pairs.len() as int), acc.insert(k@, color)),
                    None => Err("define-theme: invalid color \""@ + c@ + "\" for key \""@ + k@
                        + "\". Expected #rrggbb or named color"@),
                },
                _ => Err("define-theme: expected string color value, got "@ + pairs[1].shown@),
            },
            _ => Err("define-theme: expected string key, got "@ + pairs[0].shown@),
        }
    }
}

/// The colors that reading the pairs parses can be parsed: each is read only
/// after the pairs before it were read without error.
pub open spec fn pairs_parse_safely<T>(pairs: Seq<Arg<T>>) -> bool
    decreases pairs.len(),
{
    if pairs.len() < 2 {
        true
    } else {
        match pairs[0].kind {
            ArgKind::Str(k) => match pairs[1].kind {
                ArgKind::Str(c) => hex_cuts_ok(normalized(c@)) && (color_of(normalized(c@)) is Some
                    ==> pairs_parse_safely(pairs.subrange(2, pairs.len() as int))),
                _ => true,
            },
            _ => true,
        }
    }
}

/// What `(define-theme name key color ...)` does: the error message, or the
/// theme's name and colors.
pub open spec fn define_theme_outcome<T>(args: Seq<Arg<T>>) -> Result<(Seq<char>, Map<Seq<char>, ThemeColor>), Seq<char>> {
    match first_string(args, "define-theme"@) {
        Err(m) => Err(m),
        Ok(name) => {
            let pairs = args.subrange(1, args.len() as int);
            if pairs.len() % 2 != 0 {
                Err("define-theme: expected even number of key-value arguments after name, got "@ + decimal(
                    pairs.len(),
                ))
            } else {
                match theme_from_pairs(pairs, Map::empty()) {
                    Err(m) => Err(m),
                    Ok(t) => Ok((name, t)),
                }
            }
        },
    }
}

/// `(define-theme name key color ...)`: stores a named theme made of the
/// key-color pairs.
pub fn define_theme<T>(named_themes: &mut StrMap<Theme>, args: &Vec<Arg<T>>) -> (r: Result<Reply<T>, String>)
    requires
        first_string(args@, "define-theme"@) is Ok && (args@.len() - 1) % 2 == 0 ==> pairs_parse_safely(
            args@.subrange(1, args@.len() as int),
        ),
    ensures
        match define_theme_outcome(args@) {
            Err(m) => fails_with(r, m) && final(named_themes)@ == old(named_themes)@,
            Ok((name, t)) => {
                &&& answers_nil(r)
                &&& final(named_themes)@.dom() == old(named_themes)@.dom().insert(name)
                &&& final(named_themes)@[name]@ == t
                &&& forall|k: Seq<char>| k != name ==> #[trigger] final(named_themes)@.get(k) == old(named_themes)@.get(k)
            },
        },
{
    let name = match extract_string_arg(args, "define-theme") {
        Ok(t) => t,
        Err(e) => return Err(e),
    };
    let n = args.len() - 1;
    if n % 2 != 0 {
        return Err(cat2(
            "define-theme: expected even number of key-value arguments after name, got ",
            decimal_text(n).as_str(),
        ));
    }
    let ghost all = args@.subrange(1, args@.len() as int);
    let mut new_theme: Theme = StrMap::new();
    let mut i: usize = 1;
    while i < args.len()
        invariant
            1 <= i <= args@.len(),
            (i - 1) % 2 == 0,
            (args@.len() - 1) % 2 == 0,
            all == args@.subrange(1, args@.len() as int),
            theme_from_pairs(args@.subrange(i as int, args@.len() as int), new_theme@) == theme_from_pairs(
                all,
                Map::empty(),
            ),
            pairs_parse_safely(args@.subrange(i as int, args@.len() as int)),
            first_string(args@, "define-theme"@) == Ok::<Seq<char>, Seq<char>>(name@),
            named_themes@ == old(named_themes)@,
        decreases args@.len() - i,
    {
        let ghost rest = args@.subrange(i as int, args@.len() as int);
        assert(rest[0] == args@[i as int]);
        assert(rest[1] == args@[i + 1]);
        let key = match &args[i].kind {
            ArgKind::Str(s) => s,
            _ => return Err(cat2("define-theme: expected string key, got ", args[i].shown.as_str())),
        };
        let color_str = match &args[i + 1].kind {
            ArgKind::Str(s) => s,
            _ => return Err(cat2("define-theme: expected string color value, got ", args[i + 1].shown.as_str())),
        };
        let color = match parse_color(color_str.as_str()) {
            Some(c) => c,
            None => {
                return Err(cat5(
                    "define-theme: invalid color \"",
                    color_str.as_str(),
                    "\" for key \"",
                    key.as_str(),
                    "\". Expected #rrggbb or named color",
                ));
            },
        };
        new_theme.insert(key.clone(), color);
        assert(rest.subrange(2, rest.len() as int) =~= args@.subrange(i + 2, args@.len() as int));
        i = i + 2;
    }
    assert(args@.subrange(i as int, args@.len() as int).len() == 0);
    let ghost nm = name@;
    named_themes.insert(name, new_theme);
    Ok(Reply::Nil)
}

/// `(load-theme name)`: copies every color of a named theme into the active
/// theme; an error when no theme has that name.
pub fn load_theme<T>(theme: &mut Theme, named_themes: &StrMap<Theme>, args: &Vec<Arg<T>>) -> (r: Result<
    Reply<T>,
    String,
>)
    ensures
        match first_string(args@, "load-theme"@) {
            Err(m) => fails_with(r, m) && final(theme)@ == old(theme)@,
            Ok(name) => if named_themes@.contains_key(name) {
                answers_nil(r) && final(theme)@ == old(theme)@.union_prefer_right(named_themes@[name]@)
            } else {
                fails_with(
                    r,
                    "load-theme: theme \""@ + name + "\" not found. Define it first with (define-theme ...)"@,
                ) && final(theme)@ == old(theme)@
            },
        },
{
    let name = match extract_string_arg(args, "load-theme") {
        Ok(t) => t,
        Err(e) => return Err(e),
    };
    let src = match named_themes.get(name.as_str()) {
        Some(t) => t,
        None => {
            return Err(cat3(
                "load-theme: theme \"",
                name.as_str(),
                "\" not found. Define it first with (define-theme ...)",
            ));
        },
    };
    let n = src.len();
    let ghost keys = src.keys();
    let ghost start = theme@;
    let mut i: usize = 0;
    while i < n
        invariant
            i <= n,
            n == src.len_spec(),
            keys == src.keys(),
            keys.no_duplicates(),
            forall|j: int| 0 <= j < n ==> #[trigger] src@.contains_key(keys[j]) && src@[keys[j]] == src.value_at_spec(j),
            forall|k: Seq<char>| #[trigger] src@.contains_key(k) <==> keys.contains(k),
            forall|k: Seq<char>| #[trigger]
                theme@.contains_key(k) <==> start.contains_key(k) || keys.subrange(0, i as int).contains(k),
            forall|k: Seq<char>| keys.subrange(0, i as int).contains(k) ==> #[trigger] theme@[k] == src@[k],
            forall|k: Seq<char>|
                !keys.subrange(0, i as int).contains(k) && start.contains_key(k) ==> #[trigger] theme@[k] == start[k],
        decreases n - i,
    {
        let k = src.key_at(i);
        let c = *src.value_at(i);
        proof {
            assert(src@.contains_key(keys[i as int]));
            assert(src@[keys[i as int]] == c);
            assert forall|x: Seq<char>| keys.subrange(0, i + 1).contains(x) <==> (keys.subrange(
                0,
                i as int,
            ).contains(x) || x == keys[i as int]) by {
                if keys.subrange(0, i + 1).contains(x) {
                    let j = keys.subrange(0, i + 1).index_of(x);
                    if j < i {
                        assert(keys.subrange(0, i as int)[j] == x);
                    }
                }
                if keys.subrange(0, i as int).contains(x) {
                    let j = keys.subrange(0, i as int).index_of(x);
                    assert(keys.subrange(0, i + 1)[j] == x);
                }
                if x == keys[i as int] {
                    assert(keys.subrange(0, i + 1)[i as int] == x);
                }
            }
        }
        theme.insert(to_string(k), c);
        i = i + 1;
    }
    proof {
        assert(keys.subrange(0, n as int) =~= keys);
        assert(theme@ =~= start.union_prefer_right(src@));
    }
    Ok(Reply::Nil)
}

} // verus!
