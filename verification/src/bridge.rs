//! The logic of the Lisp primitives: reading and checking their arguments,
//! and what each one does to the editor state (or to the part of it that it
//! works on) and answers.
//!
//! A primitive sees each argument as an `Arg`: what it reads of the value
//! (an integer, a string, a symbol, a list of items, something callable, or
//! anything else) and the value's printed form, which error messages quote.
//! It answers a `Reply`, or an error message.
use crate::key_event::{KeyCode, KeyEvent, Modifiers};
use crate::panel::PanelPosition;
use crate::text::{str_eq, str_to_chars, string_push_str, to_string};
use vstd::prelude::*;

verus! {

/// What a primitive reads of one argument value; list items are carried
/// through as they are.
#[derive(Debug, PartialEq, Eq)]
pub enum ArgKind<T> {
    Int(i32),
    Str(String),
    Symbol(String),
    List(Vec<T>),
    Callable,
    Other,
}

/// One argument of a primitive: what is read of it, its printed form, and
/// the value itself, carried through.
#[derive(Debug, PartialEq, Eq)]
pub struct Arg<T> {
    pub kind: ArgKind<T>,
    pub shown: String,
    pub value: T,
}

/// What a primitive answers.
#[derive(Debug, PartialEq, Eq)]
pub enum Reply<T> {
    Nil,
    True,
    Bool(bool),
    Int(i32),
    Str(String),
    Item(T),
    List(Vec<T>),
    Strings(Vec<String>),
    Ints(Vec<i32>),
}

/// The decimal digits of a natural number.
pub open spec fn decimal(n: nat) -> Seq<char>
    decreases n,
{
    if n < 10 {
        seq![digit_char(n)]
    } else {
        decimal(n / 10) + seq![digit_char(n % 10)]
    }
}

/// The character of a digit.
pub open spec fn digit_char(d: nat) -> char {
    if d == 0 {
        '0'
    } else if d == 1 {
        '1'
    } else if d == 2 {
        '2'
    } else if d == 3 {
        '3'
    } else if d == 4 {
        '4'
    } else if d == 5 {
        '5'
    } else if d == 6 {
        '6'
    } else if d == 7 {
        '7'
    } else if d == 8 {
        '8'
    } else {
        '9'
    }
}

fn digit(d: usize) -> (c: char)
    requires
        d < 10,
    ensures
        c == digit_char(d as nat),
{
    if d == 0 {
        '0'
    } else if d == 1 {
        '1'
    } else if d == 2 {
        '2'
    } else if d == 3 {
        '3'
    } else if d == 4 {
        '4'
    } else if d == 5 {
        '5'
    } else if d == 6 {
        '6'
    } else if d == 7 {
        '7'
    } else if d == 8 {
        '8'
    } else {
        '9'
    }
}

/// The decimal text of a number.
pub fn decimal_text(n: usize) -> (s: String)
    ensures
        s@ == decimal(n as nat),
    decreases n,
{
    if n < 10 {
        let mut s = String::new();
        crate::text::string_push(&mut s, digit(n));
        assert(s@ =~= seq![digit_char(n as nat)]);
        s
    } else {
        let mut s = decimal_text(n / 10);
        crate::text::string_push(&mut s, digit(n % 10));
        s
    }
}

/// `a` then `b`.
pub fn cat2(a: &str, b: &str) -> (s: String)
    ensures
        s@ == a@ + b@,
{
    let mut s = to_string(a);
    string_push_str(&mut s, b);
    s
}

/// `a`, `b` then `c`.
pub fn cat3(a: &str, b: &str, c: &str) -> (s: String)
    ensures
        s@ == a@ + b@ + c@,
{
    let mut s = cat2(a, b);
    string_push_str(&mut s, c);
    s
}

/// `a`, `b`, `c` then `d`.
pub fn cat4(a: &str, b: &str, c: &str, d: &str) -> (s: String)
    ensures
        s@ == a@ + b@ + c@ + d@,
{
    let mut s = cat3(a, b, c);
    string_push_str(&mut s, d);
    s
}

/// `a`, `b`, `c`, `d` then `e`.
pub fn cat5(a: &str, b: &str, c: &str, d: &str, e: &str) -> (s: String)
    ensures
        s@ == a@ + b@ + c@ + d@ + e@,
{
    let mut s = cat4(a, b, c, d);
    string_push_str(&mut s, e);
    s
}

/// `a`, `b`, `c`, `d`, `e` then `f`.
pub fn cat6(a: &str, b: &str, c: &str, d: &str, e: &str, f: &str) -> (s: String)
    ensures
        s@ == a@ + b@ + c@ + d@ + e@ + f@,
{
    let mut s = cat5(a, b, c, d, e);
    string_push_str(&mut s, f);
    s
}

/// `a`, `b`, `c`, `d`, `e`, `f` then `g`.
pub fn cat7(a: &str, b: &str, c: &str, d: &str, e: &str, f: &str, g: &str) -> (s: String)
    ensures
        s@ == a@ + b@ + c@ + d@ + e@ + f@ + g@,
{
    let mut s = cat6(a, b, c, d, e, f);
    string_push_str(&mut s, g);
    s
}

/// A result of texts as a result of their views.
pub open spec fn text_result(r: Result<String, String>) -> Result<Seq<char>, Seq<char>> {
    match r {
        Ok(s) => Ok(s@),
        Err(e) => Err(e@),
    }
}

/// The first argument as a string (`extract_string_arg`).
pub open spec fn first_string<T>(args: Seq<Arg<T>>, fn_name: Seq<char>) -> Result<Seq<char>, Seq<char>> {
    if args.len() == 0 {
        Err(fn_name + ": expected 1 argument, got 0"@)
    } else {
        match args[0].kind {
            ArgKind::Str(s) => Ok(s@),
            _ => Err(fn_name + ": expected string argument, got "@ + args[0].shown@),
        }
    }
}

/// The argument at `i` as a string, named `param` in messages
/// (`extract_string_arg_at`).
pub open spec fn string_at<T>(args: Seq<Arg<T>>, i: int, fn_name: Seq<char>, param: Seq<char>) -> Result<
    Seq<char>,
    Seq<char>,
> {
    if i < args.len() {
        match args[i].kind {
            ArgKind::Str(s) => Ok(s@),
            _ => Err(fn_name + ": expected string for "@ + param + ", got "@ + args[i].shown@),
        }
    } else {
        Err(fn_name + ": missing required argument '"@ + param + "'"@)
    }
}

/// The message for a missing argument at `i` (counted from 1) of `n` given.
pub open spec fn missing_message(fn_name: Seq<char>, i: nat, n: nat) -> Seq<char> {
    fn_name + ": expected argument "@ + decimal(i + 1) + ", got only "@ + decimal(n)
}

/// The message for an argument at `i` (counted from 1) of the wrong kind.
pub open spec fn kind_message(fn_name: Seq<char>, kind: Seq<char>, i: nat, shown: Seq<char>) -> Seq<char> {
    fn_name + ": expected "@ + kind + " as argument "@ + decimal(i + 1) + ", got "@ + shown
}

/// The argument at `i` as a string (`require_string_arg`).
pub open spec fn required_string<T>(args: Seq<Arg<T>>, i: nat, fn_name: Seq<char>) -> Result<Seq<char>, Seq<char>> {
    if i < args.len() {
        match args[i as int].kind {
            ArgKind::Str(s) => Ok(s@),
            _ => Err(kind_message(fn_name, "string"@, i, args[i as int].shown@)),
        }
    } else {
        Err(missing_message(fn_name, i, args.len()))
    }
}

/// The argument at `i` as an integer (`require_int_arg`).
pub open spec fn required_int<T>(args: Seq<Arg<T>>, i: nat, fn_name: Seq<char>) -> Result<i32, Seq<char>> {
    if i < args.len() {
        match args[i as int].kind {
            ArgKind::Int(n) => Ok(n),
            _ => Err(kind_message(fn_name, "integer"@, i, args[i as int].shown@)),
        }
    } else {
        Err(missing_message(fn_name, i, args.len()))
    }
}

/// The argument at `i` as a list (`require_list_arg`).
pub open spec fn required_list<T>(args: Seq<Arg<T>>, i: nat, fn_name: Seq<char>) -> Result<Seq<T>, Seq<char>> {
    if i < args.len() {
        match args[i as int].kind {
            ArgKind::List(v) => Ok(v@),
            _ => Err(kind_message(fn_name, "list"@, i, args[i as int].shown@)),
        }
    } else {
        Err(missing_message(fn_name, i, args.len()))
    }
}

/// The first argument as a string, or the error message.
pub fn extract_string_arg<T>(args: &Vec<Arg<T>>, fn_name: &str) -> (r: Result<String, String>)
    ensures
        text_result(r) == first_string(args@, fn_name@),
{
    if args.len() == 0 {
        return Err(cat2(fn_name, ": expected 1 argument, got 0"));
    }
    match &args[0].kind {
        ArgKind::Str(s) => Ok(s.clone()),
        _ => Err(cat3(fn_name, ": expected string argument, got ", args[0].shown.as_str())),
    }
}

/// The argument at `index` as a string, or the error message naming it `param_name`.
pub fn extract_string_arg_at<T>(args: &Vec<Arg<T>>, index: usize, fn_name: &str, param_name: &str) -> (r: Result<
    String,
    String,
>)
    ensures
        text_result(r) == string_at(args@, index as int, fn_name@, param_name@),
{
    if index < args.len() {
        match &args[index].kind {
            ArgKind::Str(s) => Ok(s.clone()),
            _ => Err(
                cat5(fn_name, ": expected string for ", param_name, ", got ", args[index].shown.as_str()),
            ),
        }
    } else {
        Err(cat4(fn_name, ": missing required argument '", param_name, "'"))
    }
}

fn missing_arg(fn_name: &str, index: usize, n: usize) -> (m: String)
    requires
        index < usize::MAX,
    ensures
        m@ == missing_message(fn_name@, index as nat, n as nat),
{
    let a = decimal_text(index + 1);
    let b = decimal_text(n);
    cat5(fn_name, ": expected argument ", a.as_str(), ", got only ", b.as_str())
}

fn wrong_kind(fn_name: &str, kind: &str, index: usize, shown: &str) -> (m: String)
    requires
        index < usize::MAX,
    ensures
        m@ == kind_message(fn_name@, kind@, index as nat, shown@),
{
    let a = decimal_text(index + 1);
    cat7(fn_name, ": expected ", kind, " as argument ", a.as_str(), ", got ", shown)
}

/// The argument at `index` as a string, or the error message.
pub fn require_string_arg<T>(args: &Vec<Arg<T>>, index: usize, fn_name: &str) -> (r: Result<String, String>)
    requires
        index < usize::MAX,
    ensures
        text_result(r) == required_string(args@, index as nat, fn_name@),
{
    if index < args.len() {
        match &args[index].kind {
            ArgKind::Str(s) => Ok(s.clone()),
            _ => Err(wrong_kind(fn_name, "string", index, args[index].shown.as_str())),
        }
    } else {
        Err(missing_arg(fn_name, index, args.len()))
    }
}

/// The argument at `index` as an integer, or the error message.
pub fn require_int_arg<T>(args: &Vec<Arg<T>>, index: usize, fn_name: &str) -> (r: Result<i32, String>)
    requires
        index < usize::MAX,
    ensures
        match r {
            Ok(n) => required_int(args@, index as nat, fn_name@) == Ok::<i32, Seq<char>>(n),
            Err(e) => required_int(args@, index as nat, fn_name@) == Err::<i32, Seq<char>>(e@),
        },
{
    if index < args.len() {
        match &args[index].kind {
            ArgKind::Int(n) => Ok(*n),
            _ => Err(wrong_kind(fn_name, "integer", index, args[index].shown.as_str())),
        }
    } else {
        Err(missing_arg(fn_name, index, args.len()))
    }
}

/// Checks that the argument at `index` is a list; the error message otherwise.
pub fn require_list_arg<T>(args: &Vec<Arg<T>>, index: usize, fn_name: &str) -> (r: Result<(), String>)
    requires
        index < usize::MAX,
    ensures
        match r {
            Ok(_) => required_list(args@, index as nat, fn_name@) is Ok,
            Err(e) => required_list(args@, index as nat, fn_name@) == Err::<Seq<T>, Seq<char>>(e@),
        },
{
    if index < args.len() {
        match &args[index].kind {
            ArgKind::List(_) => Ok(()),
            _ => Err(wrong_kind(fn_name, "list", index, args[index].shown.as_str())),
        }
    } else {
        Err(missing_arg(fn_name, index, args.len()))
    }
}

/// Whether `s` starts with `p`.
pub open spec fn starts_with(s: Seq<char>, p: Seq<char>) -> bool {
    p.len() <= s.len() && s.subrange(0, p.len() as int) == p
}

/// Whether the chars of `s` start with the chars of `p`.
pub fn chars_start_with(s: &Vec<char>, p: &str) -> (b: bool)
    ensures
        b == starts_with(s@, p@),
{
    let t = str_to_chars(p);
    if t.len() > s.len() {
        return false;
    }
    let mut i: usize = 0;
    while i < t.len()
        invariant
            t@ == p@,
            t@.len() <= s@.len(),
            i <= t@.len(),
            forall|j: int| 0 <= j < i ==> s@[j] == t@[j],
        decreases t@.len() - i,
    {
        if s[i] != t[i] {
            assert(s@.subrange(0, t@.len() as int)[i as int] != t@[i as int]);
            return false;
        }
        i = i + 1;
    }
    assert(s@.subrange(0, t@.len() as int) =~= t@);
    true
}

/// The key names that a key spec may be, with their key codes.
pub open spec fn named_key(spec: Seq<char>) -> Option<KeyCode> {
    if spec == "Up"@ {
        Some(KeyCode::Up)
    } else if spec == "Down"@ {
        Some(KeyCode::Down)
    } else if spec == "Left"@ {
        Some(KeyCode::Left)
    } else if spec == "Right"@ {
        Some(KeyCode::Right)
    } else if spec == "Enter"@ {
        Some(KeyCode::Enter)
    } else if spec == "Escape"@ {
        Some(KeyCode::Escape)
    } else if spec == "Backspace"@ {
        Some(KeyCode::Backspace)
    } else if spec == "Tab"@ {
        Some(KeyCode::Tab)
    } else if spec == "Home"@ {
        Some(KeyCode::Home)
    } else if spec == "End"@ {
        Some(KeyCode::End)
    } else if spec == "PageUp"@ {
        Some(KeyCode::PageUp)
    } else if spec == "PageDown"@ {
        Some(KeyCode::PageDown)
    } else if spec == "Delete"@ {
        Some(KeyCode::Delete)
    } else if spec == "DoubleQuote"@ {
        Some(KeyCode::Char('"'))
    } else if spec == "SingleQuote"@ {
        Some(KeyCode::Char('\''))
    } else {
        None
    }
}

/// The key event of a key spec: "Ctrl:<c>" is Ctrl with the char c;
/// "Char:<c>" is the char c; else one of the key names; else an error.
pub open spec fn key_spec_event(spec: Seq<char>) -> Result<KeyEvent, Seq<char>> {
    if starts_with(spec, "Ctrl:"@) {
        if spec.len() == 5 {
            Err("parse_key_spec: 'Ctrl:' requires a character, got empty string"@)
        } else {
            Ok(KeyEvent { code: KeyCode::Char(spec[5]), modifiers: Modifiers { ctrl: true, alt: false, shift: false } })
        }
    } else if starts_with(spec, "Char:"@) {
        if spec.len() == 5 {
            Err("parse_key_spec: 'Char:' requires a character, got empty string"@)
        } else {
            Ok(KeyEvent { code: KeyCode::Char(spec[5]), modifiers: Modifiers { ctrl: false, alt: false, shift: false } })
        }
    } else {
        match named_key(spec) {
            Some(code) => Ok(KeyEvent { code, modifiers: Modifiers { ctrl: false, alt: false, shift: false } }),
            None => Err("parse_key_spec: unrecognized key-spec \""@ + spec + UNRECOGNIZED_KEY_TAIL@),
        }
    }
}

/// The end of the message for an unknown key spec.
pub const UNRECOGNIZED_KEY_TAIL: &'static str = "\". Expected: Up, Down, Left, Right, Enter, Escape, Backspace, Tab, Home, End, PageUp, PageDown, Delete, DoubleQuote, SingleQuote, Char:<c>, or Ctrl:<c>";

fn named_key_of(spec: &str) -> (r: Option<KeyCode>)
    ensures
        r == named_key(spec@),
{
    if str_eq(spec, "Up") {
        Some(KeyCode::Up)
    } else if str_eq(spec, "Down") {
        Some(KeyCode::Down)
    } else if str_eq(spec, "Left") {
        Some(KeyCode::Left)
    } else if str_eq(spec, "Right") {
        Some(KeyCode::Right)
    } else if str_eq(spec, "Enter") {
        Some(KeyCode::Enter)
    } else if str_eq(spec, "Escape") {
        Some(KeyCode::Escape)
    } else if str_eq(spec, "Backspace") {
        Some(KeyCode::Backspace)
    } else if str_eq(spec, "Tab") {
        Some(KeyCode::Tab)
    } else if str_eq(spec, "Home") {
        Some(KeyCode::Home)
    } else if str_eq(spec, "End") {
        Some(KeyCode::End)
    } else if str_eq(spec, "PageUp") {
        Some(KeyCode::PageUp)
    } else if str_eq(spec, "PageDown") {
        Some(KeyCode::PageDown)
    } else if str_eq(spec, "Delete") {
        Some(KeyCode::Delete)
    } else if str_eq(spec, "DoubleQuote") {
        Some(KeyCode::Char('"'))
    } else if str_eq(spec, "SingleQuote") {
        Some(KeyCode::Char('\''))
    } else {
        None
    }
}

/// Parses a key spec: "Up", "Enter", ... (see `named_key`), "Char:<c>" or
/// "Ctrl:<c>"; the error message for anything else.
pub fn parse_key_spec(spec: &str) -> (r: Result<KeyEvent, String>)
    ensures
        match r {
            Ok(k) => key_spec_event(spec@) == Ok::<KeyEvent, Seq<char>>(k),
            Err(e) => key_spec_event(spec@) == Err::<KeyEvent, Seq<char>>(e@),
        },
{
    let chars = str_to_chars(spec);
    proof {
        reveal_strlit("Ctrl:");
        reveal_strlit("Char:");
    }
    if chars_start_with(&chars, "Ctrl:") {
        if chars.len() == 5 {
            return Err(to_string("parse_key_spec: 'Ctrl:' requires a character, got empty string"));
        }
        return Ok(KeyEvent::new(KeyCode::Char(chars[5]), Modifiers::ctrl()));
    }
    if chars_start_with(&chars, "Char:") {
        if chars.len() == 5 {
            return Err(to_string("parse_key_spec: 'Char:' requires a character, got empty string"));
        }
        return Ok(KeyEvent::plain(KeyCode::Char(chars[5])));
    }
    match named_key_of(spec) {
        Some(code) => Ok(KeyEvent::plain(code)),
        None => Err(cat3("parse_key_spec: unrecognized key-spec \"", spec, UNRECOGNIZED_KEY_TAIL)),
    }
}

/// The direction named by a `cursor-move` argument: a symbol, without a
/// leading ':', or a string.
pub open spec fn direction_of<T>(a: Arg<T>) -> Result<Seq<char>, Seq<char>> {
    match a.kind {
        ArgKind::Symbol(s) => if starts_with(s@, ":"@) {
            Ok(s@.subrange(1, s@.len() as int))
        } else {
            Ok(s@)
        },
        ArgKind::Str(s) => Ok(s@),
        _ => Err("cursor-move: expected direction as symbol or string, got "@ + a.shown@),
    }
}

/// The direction named by a `cursor-move` argument, or the error message.
pub fn extract_direction<T>(value: &Arg<T>) -> (r: Result<String, String>)
    ensures
        text_result(r) == direction_of(*value),
{
    match &value.kind {
        ArgKind::Symbol(s) => {
            let chars = str_to_chars(s.as_str());
            proof {
                reveal_strlit(":");
            }
            if chars_start_with(&chars, ":") {
                Ok(crate::text::chars_to_string(chars.as_slice(), 1, chars.len()))
            } else {
                Ok(s.clone())
            }
        },
        ArgKind::Str(s) => Ok(s.clone()),
        _ => Err(cat2("cursor-move: expected direction as symbol or string, got ", value.shown.as_str())),
    }
}

/// The panel position a name stands for.
pub open spec fn position_named(s: Seq<char>) -> Option<PanelPosition> {
    if s == "top"@ {
        Some(PanelPosition::Top)
    } else if s == "bottom"@ {
        Some(PanelPosition::Bottom)
    } else if s == "left"@ {
        Some(PanelPosition::Left)
    } else if s == "right"@ {
        Some(PanelPosition::Right)
    } else {
        None
    }
}

/// Parses "top", "bottom", "left" or "right" into a panel position.
pub fn parse_panel_position(position_str: &str) -> (r: Option<PanelPosition>)
    ensures
        r == position_named(position_str@),
{
    if str_eq(position_str, "top") {
        Some(PanelPosition::Top)
    } else if str_eq(position_str, "bottom") {
        Some(PanelPosition::Bottom)
    } else if str_eq(position_str, "left") {
        Some(PanelPosition::Left)
    } else if str_eq(position_str, "right") {
        Some(PanelPosition::Right)
    } else {
        None
    }
}

/// The argument at `i` as an integer, named `param` in messages.
pub open spec fn int_at<T>(args: Seq<Arg<T>>, i: int, fn_name: Seq<char>, param: Seq<char>) -> Result<i32, Seq<char>> {
    if i < args.len() {
        match args[i].kind {
            ArgKind::Int(n) => Ok(n),
            _ => Err(fn_name + ": expected integer for "@ + param + ", got "@ + args[i].shown@),
        }
    } else {
        Err(fn_name + ": missing required argument '"@ + param + "'"@)
    }
}

/// The argument at `index` as an integer, or the error message naming it `param_name`.
pub fn extract_int_arg_at<T>(args: &Vec<Arg<T>>, index: usize, fn_name: &str, param_name: &str) -> (r: Result<
    i32,
    String,
>)
    ensures
        match r {
            Ok(n) => int_at(args@, index as int, fn_name@, param_name@) == Ok::<i32, Seq<char>>(n),
            Err(e) => int_at(args@, index as int, fn_name@, param_name@) == Err::<i32, Seq<char>>(e@),
        },
{
    if index < args.len() {
        match &args[index].kind {
            ArgKind::Int(n) => Ok(*n),
            _ => Err(cat5(fn_name, ": expected integer for ", param_name, ", got ", args[index].shown.as_str())),
        }
    } else {
        Err(cat4(fn_name, ": missing required argument '", param_name, "'"))
    }
}

/// A result of a primitive, with what it answers forgotten.
pub open spec fn as_unit<T>(r: Result<Reply<T>, String>) -> Result<(), String> {
    match r {
        Ok(_) => Ok(()),
        Err(e) => Err(e),
    }
}
} // verus!
