//! The Lisp primitives for display settings kept beside the editor state:
//! the tab width, the cursor shape of each mode, and full-line background
//! colors.
use crate::bridge::{cat2, cat3, cat4, extract_string_arg, extract_string_arg_at, first_string, string_at, Arg, ArgKind, Reply};
use crate::lisp_editor::{answers_nil, fails_with};
use crate::str_map::StrMap;
use crate::text::{str_eq, to_string};
use crate::theme::{color_of, hex_cuts_ok, normalized, parse_color, ThemeColor};
use std::collections::HashMap;
use vstd::prelude::*;

verus! {

/// What `(set-tab-width n)` sets: the width, or the error message.
pub open spec fn tab_width_outcome<T>(args: Seq<Arg<T>>) -> Result<usize, Seq<char>> {
    if args.len() == 0 {
        Err("set-tab-width: expected 1 argument, got 0"@)
    } else {
        match args[0].kind {
            ArgKind::Int(n) => if n < 1 {
                Err("set-tab-width: value must be >= 1, got "@ + args[0].shown@)
            } else {
                Ok(n as usize)
            },
            _ => Err("set-tab-width: expected integer argument, got "@ + args[0].shown@),
        }
    }
}

/// `(set-tab-width n)`: sets the number of spaces per Tab; it must be at
/// least 1.
pub fn set_tab_width<T>(tab_width: &mut usize, args: &Vec<Arg<T>>) -> (r: Result<Reply<T>, String>)
    ensures
        match tab_width_outcome(args@) {
            Err(m) => fails_with(r, m) && *final(tab_width) == *old(tab_width),
            Ok(w) => answers_nil(r) && *final(tab_width) == w,
        },
{
    if args.len() == 0 {
        return Err(to_string("set-tab-width: expected 1 argument, got 0"));
    }
    match &args[0].kind {
        ArgKind::Int(n) => {
            if *n < 1 {
                return Err(cat2("set-tab-width: value must be >= 1, got ", args[0].shown.as_str()));
            }
            *tab_width = *n as usize;
            Ok(Reply::Nil)
        },
        _ => Err(cat2("set-tab-width: expected integer argument, got ", args[0].shown.as_str())),
    }
}

/// The tab width of a new editor.
pub const DEFAULT_TAB_WIDTH: usize = 4;

/// `(get-tab-width)`: the tab width, as a Lisp integer.
pub fn get_tab_width<T>(tab_width: usize) -> (r: Result<Reply<T>, String>)
    ensures
        r == Ok::<Reply<T>, String>(Reply::Int(tab_width as i32)),
{
    Ok(Reply::Int(tab_width as i32))
}

/// The cursor shape names, as `set-cursor-shape` lists them.
pub const CURSOR_SHAPE_NAMES: &'static str =
    "default, block, steady-block, blinking-block, bar, steady-bar, blinking-bar, underline, steady-underline, blinking-underline";

/// Whether a name is one of the cursor shapes.
pub open spec fn is_cursor_shape(s: Seq<char>) -> bool {
    ||| s == "default"@
    ||| s == "block"@
    ||| s == "steady-block"@
    ||| s == "blinking-block"@
    ||| s == "bar"@
    ||| s == "steady-bar"@
    ||| s == "blinking-bar"@
    ||| s == "underline"@
    ||| s == "steady-underline"@
    ||| s == "blinking-underline"@
}

/// Whether `name` is one of the cursor shapes.
pub fn is_valid_cursor_shape(name: &str) -> (b: bool)
    ensures
        b == is_cursor_shape(name@),
{
    str_eq(name, "default") || str_eq(name, "block") || str_eq(name, "steady-block") || str_eq(name, "blinking-block")
        || str_eq(name, "bar") || str_eq(name, "steady-bar") || str_eq(name, "blinking-bar") || str_eq(
        name,
        "underline",
    ) || str_eq(name, "steady-underline") || str_eq(name, "blinking-underline")
}

/// What `(set-cursor-shape mode shape)` records: the mode and the shape, or
/// the error message.
pub open spec fn cursor_shape_outcome<T>(args: Seq<Arg<T>>) -> Result<(Seq<char>, Seq<char>), Seq<char>> {
    match string_at(args, 0, "set-cursor-shape"@, "mode-name"@) {
        Err(m) => Err(m),
        Ok(mode) => match string_at(args, 1, "set-cursor-shape"@, "shape-name"@) {
            Err(m) => Err(m),
            Ok(shape) => if is_cursor_shape(shape) {
                Ok((mode, shape))
            } else {
                Err("set-cursor-shape: invalid shape \""@ + shape + "\". Valid shapes: "@ + CURSOR_SHAPE_NAMES@)
            },
        },
    }
}

/// The shape names of a map of cursor shapes.
pub open spec fn shape_texts(m: Map<Seq<char>, String>) -> Map<Seq<char>, Seq<char>> {
    m.map_values(|s: String| s@)
}

/// `(set-cursor-shape mode shape)`: records the cursor shape of a mode.
pub fn set_cursor_shape<T>(shapes: &mut StrMap<String>, args: &Vec<Arg<T>>) -> (r: Result<Reply<T>, String>)
    ensures
        match cursor_shape_outcome(args@) {
            Err(m) => fails_with(r, m) && final(shapes)@ == old(shapes)@,
            Ok((mode, shape)) => answers_nil(r) && shape_texts(final(shapes)@) == shape_texts(old(shapes)@).insert(
                mode,
                shape,
            ),
        },
{
    let mode = match extract_string_arg_at(args, 0, "set-cursor-shape", "mode-name") {
        Ok(t) => t,
        Err(e) => return Err(e),
    };
    let shape = match extract_string_arg_at(args, 1, "set-cursor-shape", "shape-name") {
        Ok(t) => t,
        Err(e) => return Err(e),
    };
    if !is_valid_cursor_shape(shape.as_str()) {
        return Err(
            cat4("set-cursor-shape: invalid shape \"", shape.as_str(), "\". Valid shapes: ", CURSOR_SHAPE_NAMES),
        );
    }
    let ghost before = shapes@;
    let ghost mode_view = mode@;
    let ghost shape_view = shape@;
    shapes.insert(mode, shape);
    proof {
        assert(shape_texts(shapes@) =~= shape_texts(before).insert(mode_view, shape_view));
    }
    Ok(Reply::Nil)
}

/// The cursor shapes of a new editor: a block in normal mode and a bar in
/// insert mode.
pub fn default_cursor_shapes() -> (m: StrMap<String>)
    ensures
        shape_texts(m@) == map!["normal"@ => "block"@, "insert"@ => "bar"@],
{
    let mut m: StrMap<String> = StrMap::new();
    m.insert(to_string("normal"), to_string("block"));
    m.insert(to_string("insert"), to_string("bar"));
    proof {
        assert(shape_texts(m@) =~= map!["normal"@ => "block"@, "insert"@ => "bar"@]);
    }
    m
}

/// `(get-cursor-shape mode)`: the shape recorded for the mode, or nil.
pub fn get_cursor_shape<T>(shapes: &StrMap<String>, args: &Vec<Arg<T>>) -> (r: Result<Reply<T>, String>)
    ensures
        match first_string(args@, "get-cursor-shape"@) {
            Err(m) => fails_with(r, m),
            Ok(mode) => if shapes@.contains_key(mode) {
                r matches Ok(Reply::Str(s)) && s@ == shapes@[mode]@
            } else {
                answers_nil(r)
            },
        },
{
    let mode = match extract_string_arg(args, "get-cursor-shape") {
        Ok(t) => t,
        Err(e) => return Err(e),
    };
    match shapes.get(mode.as_str()) {
        Some(s) => Ok(Reply::Str(s.clone())),
        None => Ok(Reply::Nil),
    }
}

/// The foreground and background colors of a line.
pub type LineColors = (ThemeColor, ThemeColor);

/// The color text at `i` of `set-line-background`, or the error message
/// `missing`.
pub open spec fn background_text<T>(args: Seq<Arg<T>>, i: int, missing: Seq<char>) -> Result<Seq<char>, Seq<char>> {
    if i < args.len() && args[i].kind is Str {
        Ok(args[i].kind->Str_0@)
    } else {
        Err(missing)
    }
}

/// The message for a missing or wrong foreground color.
pub open spec fn no_fg() -> Seq<char> {
    "set-line-background: expected fg color string"@
}

/// The message for a missing or wrong background color.
pub open spec fn no_bg() -> Seq<char> {
    "set-line-background: expected bg color string"@
}

/// What `(set-line-background line fg bg)` does: the line and its colors,
/// or the error message.
pub open spec fn line_background_outcome<T>(args: Seq<Arg<T>>) -> Result<(usize, LineColors), Seq<char>> {
    if !(args.len() > 0 && args[0].kind is Int) {
        Err("set-line-background: expected integer for line"@)
    } else {
        let line = args[0].kind->Int_0 as usize;
        match background_text(args, 1, no_fg()) {
            Err(m) => Err(m),
            Ok(fg) => match background_text(args, 2, no_bg()) {
                Err(m) => Err(m),
                Ok(bg) => match color_of(normalized(fg)) {
                    None => Err("set-line-background: invalid fg color '"@ + fg + "'"@),
                    Some(f) => match color_of(normalized(bg)) {
                        None => Err("set-line-background: invalid bg color '"@ + bg + "'"@),
                        Some(b) => Ok((line, (f, b))),
                    },
                },
            },
        }
    }
}

/// `(set-line-background line fg bg)`: sets the colors of a whole line.
pub fn set_line_background<T>(backgrounds: &mut HashMap<usize, LineColors>, args: &Vec<Arg<T>>) -> (r: Result<
    Reply<T>,
    String,
>)
    requires
        args@.len() > 0 && args@[0].kind is Int ==> (background_text(args@, 1, no_fg()) matches Ok(f) ==> (background_text(
            args@,
            2,
            no_bg(),
        ) matches Ok(b) ==> hex_cuts_ok(normalized(f)) && (color_of(normalized(f)) is Some ==> hex_cuts_ok(
            normalized(b),
        )))),
    ensures
        match line_background_outcome(args@) {
            Err(m) => fails_with(r, m) && final(backgrounds)@ == old(backgrounds)@,
            Ok((line, colors)) => answers_nil(r) && final(backgrounds)@ == old(backgrounds)@.insert(line, colors),
        },
{
    let line = if args.len() > 0 {
        match &args[0].kind {
            ArgKind::Int(n) => *n as usize,
            _ => return Err(to_string("set-line-background: expected integer for line")),
        }
    } else {
        return Err(to_string("set-line-background: expected integer for line"));
    };
    let fg_str = if args.len() > 1 {
        match &args[1].kind {
            ArgKind::Str(s) => s,
            _ => return Err(to_string("set-line-background: expected fg color string")),
        }
    } else {
        return Err(to_string("set-line-background: expected fg color string"));
    };
    let bg_str = if args.len() > 2 {
        match &args[2].kind {
            ArgKind::Str(s) => s,
            _ => return Err(to_string("set-line-background: expected bg color string")),
        }
    } else {
        return Err(to_string("set-line-background: expected bg color string"));
    };
    let fg = match parse_color(fg_str.as_str()) {
        Some(c) => c,
        None => return Err(cat3("set-line-background: invalid fg color '", fg_str.as_str(), "'")),
    };
    let bg = match parse_color(bg_str.as_str()) {
        Some(c) => c,
        None => return Err(cat3("set-line-background: invalid bg color '", bg_str.as_str(), "'")),
    };
    backgrounds.insert(line, (fg, bg));
    Ok(Reply::Nil)
}

/// `(clear-line-backgrounds)`: removes every line background.
pub fn clear_line_backgrounds<T>(backgrounds: &mut HashMap<usize, LineColors>) -> (r: Result<Reply<T>, String>)
    ensures
        answers_nil(r),
        final(backgrounds)@ == Map::<usize, LineColors>::empty(),
{
    backgrounds.clear();
    Ok(Reply::Nil)
}

} // verus!
