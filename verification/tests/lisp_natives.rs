use alfred::bridge::{Arg, ArgKind, Reply};
use alfred::lisp_hooks::{check_callback_args, flatten_results, hook_callback_reply, hook_errors_message, hook_string_args};
use alfred::lisp_lists::{
    native_append, native_cons, native_filter, native_first, native_for_each, native_is_list, native_is_nil,
    native_length, native_map, native_nth, native_range, native_reduce, native_rest, native_reverse,
};
use alfred::lisp_strings::{
    native_parse_int, native_str_concat, native_str_contains, native_str_ends_with, native_str_index_of,
    native_str_join, native_str_length, native_str_lower, native_str_replace, native_str_split,
    native_str_starts_with, native_str_substring, native_str_trim, native_str_upper, native_str_variadic,
    native_to_string,
};
use alfred::lisp_theme::{define_theme, get_theme_color, load_theme, set_theme_color};
use alfred::str_map::StrMap;
use alfred::theme::{new_theme, NamedColor, ThemeColor};

fn s(t: &str) -> Arg<()> {
    Arg { kind: ArgKind::Str(t.to_string()), shown: format!("\"{}\"", t), value: () }
}

fn i(n: i32) -> Arg<()> {
    Arg { kind: ArgKind::Int(n), shown: n.to_string(), value: () }
}

fn err_text<T: std::fmt::Debug>(r: Result<Reply<T>, String>) -> String {
    match r {
        Err(e) => e,
        Ok(x) => panic!("expected an error, got {:?}", x),
    }
}

fn strings(v: &[&str]) -> Vec<String> {
    v.iter().map(|t| t.to_string()).collect()
}

// -- strings ------------------------------------------------------------------

#[test]
fn str_split_splits_on_each_delimiter() {
    assert_eq!(native_str_split(&vec![s("a,b,,c"), s(",")]), Ok(Reply::Strings(strings(&["a", "b", "", "c"]))));
    assert_eq!(native_str_split(&vec![s("aaa"), s("aa")]), Ok(Reply::Strings(strings(&["", "a"]))));
    assert_eq!(native_str_split(&vec![s("ab"), s("")]), Ok(Reply::Strings(strings(&["", "a", "b", ""]))));
    assert_eq!(err_text(native_str_split(&vec![s("a")])), "str-split: expected argument 2, got only 1");
}

fn list_of(items: Vec<Arg<()>>) -> Arg<Arg<()>> {
    Arg { kind: ArgKind::List(items), shown: "(...)".to_string(), value: s("") }
}

fn s2(t: &str) -> Arg<Arg<()>> {
    Arg { kind: ArgKind::Str(t.to_string()), shown: format!("\"{}\"", t), value: s("") }
}

#[test]
fn str_join_joins_strings_of_a_list() {
    assert_eq!(native_str_join(&vec![list_of(vec![s("a"), s("b"), s("c")]), s2("-")]), Ok(Reply::Str("a-b-c".to_string())));
    assert_eq!(native_str_join(&vec![list_of(vec![]), s2("-")]), Ok(Reply::Str(String::new())));
    assert_eq!(
        err_text(native_str_join(&vec![list_of(vec![s("a"), i(2)]), s2("-")])),
        "str-join: list element is not a string: 2"
    );
    assert_eq!(err_text(native_str_join(&vec![s2("a"), s2("-")])), "str-join: expected list as first arg, got \"a\"");
    let none: Vec<Arg<Arg<()>>> = vec![];
    assert_eq!(err_text(native_str_join(&none)), "str-join: expected 2 arguments, got 0");
}

#[test]
fn str_concat_writes_non_strings_as_printed() {
    assert_eq!(native_str_concat(&vec![list_of(vec![s("x="), i(5)])]), Ok(Reply::Str("x=5".to_string())));
}

#[test]
fn str_searches() {
    assert_eq!(native_str_contains(&vec![s("hello"), s("ell")]), Ok(Reply::True));
    assert_eq!(native_str_contains(&vec![s("hello"), s("xyz")]), Ok(Reply::Nil));
    assert_eq!(native_str_starts_with(&vec![s("hello"), s("he")]), Ok(Reply::True));
    assert_eq!(native_str_ends_with(&vec![s("hello"), s("he")]), Ok(Reply::Nil));
    assert_eq!(native_str_index_of(&vec![s("hello"), s("l")]), Ok(Reply::Int(2)));
    assert_eq!(native_str_index_of(&vec![s("héllo"), s("l")]), Ok(Reply::Int(3)));
    assert_eq!(native_str_index_of(&vec![s("hello"), s("z")]), Ok(Reply::Int(-1)));
}

#[test]
fn str_length_counts_bytes() {
    assert_eq!(native_str_length(&vec![s("héllo")]), Ok(Reply::Int(6)));
}

#[test]
fn str_replace_replaces_every_occurrence() {
    assert_eq!(native_str_replace(&vec![s("a.b.c"), s("."), s("::")]), Ok(Reply::Str("a::b::c".to_string())));
    assert_eq!(native_str_replace(&vec![s("ab"), s(""), s("-")]), Ok(Reply::Str("-a-b-".to_string())));
}

#[test]
fn str_substring_cuts_by_bytes() {
    assert_eq!(native_str_substring(&vec![s("hello"), i(1), i(4)]), Ok(Reply::Str("ell".to_string())));
    assert_eq!(
        err_text(native_str_substring(&vec![s("hello"), i(3), i(9)])),
        "str-substring: indices [3, 9) out of bounds for string of length 5"
    );
}

#[test]
fn str_case_and_trim() {
    assert_eq!(native_str_upper(&vec![s("abC")]), Ok(Reply::Str("ABC".to_string())));
    assert_eq!(native_str_lower(&vec![s("AbC")]), Ok(Reply::Str("abc".to_string())));
    assert_eq!(native_str_trim(&vec![s("  x y \n")]), Ok(Reply::Str("x y".to_string())));
}

#[test]
fn str_variadic_concatenates_strings_only() {
    assert_eq!(native_str_variadic(&vec![s("a"), s("b")]), Ok(Reply::Str("ab".to_string())));
    assert_eq!(err_text(native_str_variadic(&vec![s("a"), i(1)])), "str: expected string as argument 2, got 1");
}

#[test]
fn to_string_keeps_strings_and_prints_others() {
    assert_eq!(native_to_string(&vec![s("x")]), Ok(Reply::Str("x".to_string())));
    assert_eq!(native_to_string(&vec![i(-3)]), Ok(Reply::Str("-3".to_string())));
    let none: Vec<Arg<()>> = vec![];
    assert_eq!(err_text(native_to_string(&none)), "to-string: expected 1 argument, got 0");
}

#[test]
fn parse_int_reads_trimmed_integers() {
    assert_eq!(native_parse_int(&vec![s(" 42 ")]), Ok(Reply::Int(42)));
    assert_eq!(native_parse_int(&vec![s("-17")]), Ok(Reply::Int(-17)));
    assert_eq!(native_parse_int(&vec![s("+8")]), Ok(Reply::Int(8)));
    assert_eq!(native_parse_int(&vec![s("-2147483648")]), Ok(Reply::Int(i32::MIN)));
    assert_eq!(
        err_text(native_parse_int(&vec![s("4x")])),
        "parse-int: cannot parse \"4x\" as integer: invalid digit found in string"
    );
    assert_eq!(
        err_text(native_parse_int(&vec![s("  ")])),
        "parse-int: cannot parse \"  \" as integer: cannot parse integer from empty string"
    );
    assert_eq!(
        err_text(native_parse_int(&vec![s("2147483648")])),
        "parse-int: cannot parse \"2147483648\" as integer: number too large to fit in target type"
    );
    assert_eq!(
        err_text(native_parse_int(&vec![s("-2147483649")])),
        "parse-int: cannot parse \"-2147483649\" as integer: number too small to fit in target type"
    );
    assert_eq!(
        err_text(native_parse_int(&vec![s("-")])),
        "parse-int: cannot parse \"-\" as integer: invalid digit found in string"
    );
}

// -- lists --------------------------------------------------------------------

fn n(x: i32) -> Arg<i32> {
    Arg { kind: ArgKind::Int(x), shown: x.to_string(), value: x }
}

fn l(items: Vec<i32>) -> Arg<i32> {
    Arg { kind: ArgKind::List(items), shown: "(...)".to_string(), value: 0 }
}

#[test]
fn list_access() {
    assert_eq!(native_length(&vec![l(vec![1, 2, 3])]), Ok(Reply::Int(3)));
    assert_eq!(native_nth(vec![n(1), l(vec![10, 20, 30])]), Ok(Reply::Item(20)));
    assert_eq!(native_nth(vec![n(5), l(vec![10])]), Ok(Reply::Nil));
    assert_eq!(native_nth(vec![n(-1), l(vec![10])]), Ok(Reply::Nil));
    assert_eq!(native_first(vec![l(vec![7, 8])]), Ok(Reply::Item(7)));
    assert_eq!(native_first(vec![l(vec![])]), Ok(Reply::Nil));
    assert_eq!(native_rest(vec![l(vec![7, 8, 9])]), Ok(Reply::List(vec![8, 9])));
    assert_eq!(native_rest(vec![l(vec![])]), Ok(Reply::List(vec![])));
    assert_eq!(err_text(native_length(&vec![n(3)])), "length: expected list as argument 1, got 3");
}

#[test]
fn list_building() {
    assert_eq!(native_cons(vec![n(1), l(vec![2, 3])]), Ok(Reply::List(vec![1, 2, 3])));
    assert_eq!(native_append(vec![l(vec![1]), l(vec![2, 3])]), Ok(Reply::List(vec![1, 2, 3])));
    assert_eq!(native_reverse(vec![l(vec![1, 2, 3])]), Ok(Reply::List(vec![3, 2, 1])));
    assert_eq!(native_range(&vec![n(2), n(5)]), Ok(Reply::Ints(vec![2, 3, 4])));
    assert_eq!(native_range(&vec![n(5), n(2)]), Ok(Reply::Ints(vec![])));
}

#[test]
fn type_tests() {
    assert_eq!(native_is_list(&vec![l(vec![1])]), Ok(Reply::True));
    assert_eq!(native_is_list(&vec![n(1)]), Ok(Reply::Nil));
    assert_eq!(native_is_nil(&vec![l(vec![])]), Ok(Reply::True));
    assert_eq!(native_is_nil(&vec![l(vec![1])]), Ok(Reply::Nil));
    let none: Vec<Arg<i32>> = vec![];
    assert_eq!(err_text(native_is_nil(&none)), "nil?: expected 1 argument, got 0");
}

#[test]
fn map_filter_reduce_for_each_call_the_function() {
    let f = n(0);
    assert_eq!(native_map(vec![f, l(vec![1, 2, 3])], |x: &i32| Ok(x * 10)), Ok(Reply::List(vec![10, 20, 30])));
    let f = n(0);
    assert_eq!(native_filter(vec![f, l(vec![1, 2, 3, 4])], |x: &i32| Ok(x % 2 == 0)), Ok(Reply::List(vec![2, 4])));
    let f = n(0);
    assert_eq!(native_reduce(vec![f, n(100), l(vec![1, 2, 3])], |a: i32, x: &i32| Ok(a - x)), Ok(Reply::Item(94)));
    let f = n(0);
    assert_eq!(native_for_each(vec![f, l(vec![1, 2])], |_x: &i32| Ok(())), Ok(Reply::Nil));
    let f = n(0);
    assert_eq!(
        err_text(native_map(vec![f, l(vec![1, 2, 3])], |x: &i32| if *x == 2 { Err("boom".to_string()) } else { Ok(*x) })),
        "boom"
    );
    let none: Vec<Arg<i32>> = vec![n(0)];
    assert_eq!(
        err_text(native_reduce(none, |a: i32, _x: &i32| Ok(a))),
        "reduce: expected 3 arguments (fn, init, list), got 1"
    );
}

// -- themes -------------------------------------------------------------------

#[test]
fn theme_colors_set_read_and_clear() {
    let mut theme = new_theme();
    assert_eq!(set_theme_color(&mut theme, &vec![s("fg"), s("#3c3836")]), Ok(Reply::Nil));
    assert_eq!(get_theme_color(&theme, &vec![s("fg")]), Ok(Reply::Str("#3c3836".to_string())));
    assert_eq!(set_theme_color(&mut theme, &vec![s("bg"), s("Red")]), Ok(Reply::Nil));
    assert_eq!(get_theme_color(&theme, &vec![s("bg")]), Ok(Reply::Str("red".to_string())));
    assert_eq!(set_theme_color(&mut theme, &vec![s("fg"), s(" DEFAULT ")]), Ok(Reply::Nil));
    assert_eq!(get_theme_color(&theme, &vec![s("fg")]), Ok(Reply::Nil));
    assert_eq!(
        err_text(set_theme_color(&mut theme, &vec![s("fg"), s("mauve")])),
        "set-theme-color: invalid color \"mauve\". Expected #rrggbb, named color, or \"default\""
    );
}

#[test]
fn named_themes_are_defined_then_loaded() {
    let mut named: StrMap<StrMap<ThemeColor>> = StrMap::new();
    assert_eq!(
        define_theme(&mut named, &vec![s("dark"), s("fg"), s("white"), s("bg"), s("#000000")]),
        Ok(Reply::Nil)
    );
    assert_eq!(
        err_text(define_theme(&mut named, &vec![s("odd"), s("fg")])),
        "define-theme: expected even number of key-value arguments after name, got 1"
    );
    assert_eq!(
        err_text(define_theme(&mut named, &vec![s("bad"), s("fg"), s("nope")])),
        "define-theme: invalid color \"nope\" for key \"fg\". Expected #rrggbb or named color"
    );
    let mut active = new_theme();
    active.insert("fg".to_string(), ThemeColor::Rgb(1, 2, 3));
    active.insert("cursor".to_string(), ThemeColor::Named(NamedColor::Cyan));
    assert_eq!(load_theme(&mut active, &named, &vec![s("dark")]), Ok(Reply::Nil));
    assert_eq!(active.get("fg"), Some(&ThemeColor::Named(NamedColor::White)));
    assert_eq!(active.get("bg"), Some(&ThemeColor::Rgb(0, 0, 0)));
    assert_eq!(active.get("cursor"), Some(&ThemeColor::Named(NamedColor::Cyan)));
    assert_eq!(
        err_text(load_theme(&mut active, &named, &vec![s("light")])),
        "load-theme: theme \"light\" not found. Define it first with (define-theme ...)"
    );
}

// -- hooks --------------------------------------------------------------------

#[test]
fn callback_arguments_are_checked() {
    let callable = Arg { kind: ArgKind::Callable, shown: "<func>".to_string(), value: () };
    assert_eq!(check_callback_args(&vec![s("save"), callable], "define-command").unwrap(), "save");
    assert_eq!(
        check_callback_args(&vec![s("save")], "add-hook").unwrap_err(),
        "add-hook: expected 2 arguments (name, callback), got 1"
    );
    assert_eq!(
        check_callback_args(&vec![s("save"), i(3)], "define-command").unwrap_err(),
        "define-command: expected callable as second argument, got 3"
    );
}

#[test]
fn dispatch_pieces() {
    assert_eq!(hook_string_args(&vec![s("hook"), s("a"), i(2)]), strings(&["a", "2"]));
    assert_eq!(hook_callback_reply(Ok(i(5))), Ok(strings(&["5"])));
    assert_eq!(hook_callback_reply::<()>(Err("bad".to_string())), Err("Hook error: bad".to_string()));
    assert_eq!(hook_errors_message(&vec![]), None);
    assert_eq!(hook_errors_message(&strings(&["e1", "e2"])), Some("e1; e2".to_string()));
    assert_eq!(flatten_results(vec![strings(&["a"]), vec![], strings(&["b", "c"])]), strings(&["a", "b", "c"]));
}
