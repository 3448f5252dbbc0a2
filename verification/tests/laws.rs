use alfred::command::{self, builtin_commands, BuiltinCommand, CommandRegistry};
use alfred::theme::{format_theme_color, parse_color, NamedColor, ThemeColor};
use alfred::syntax::{byte_offset_to_point, line_to_byte_offset};
use alfred::syntax::compute_edit_notification;
use alfred::text::{char_is_alphanumeric, char_is_whitespace};
use alfred::plugin::{appended_message, is_plugin_dir, plugin_errors_message, plugin_from_init, PluginError};
use std::path::PathBuf;
use std::rc::Rc;
use alfred::hook::{register_hook, HookRegistry};
use alfred::text_object::{inner_parens, inner_word};
use alfred::bridge::{Arg, ArgKind, Reply};
use alfred::buffer::{self, Buffer};
use alfred::cursor::{self, Cursor};
use alfred::editor_state;
use alfred::key_event::{KeyCode, KeyEvent, Modifiers};
use alfred::lisp_editor::{define_key, make_keymap, set_active_keymap};
use alfred::lisp_strings::{join_strings, replace_text, split_text};
use alfred::panel::{self, PanelPosition};

fn s(t: &str) -> Arg<()> {
    Arg { kind: ArgKind::Str(t.to_string()), shown: format!("\"{}\"", t), value: () }
}

#[test]
fn deleting_what_was_inserted_restores_the_text() {
    let b = Buffer::from_string("hello\nworld");
    let inserted = buffer::insert_at(&b, 1, 2, "XYZ");
    assert_eq!(buffer::content(&inserted), "hello\nwoXYZrld");
    let restored = buffer::delete_char_range(&inserted, 1, 2, 1, 5);
    assert_eq!(buffer::content(&restored), "hello\nworld");
}

#[test]
fn deleting_an_inserted_line_break_restores_the_text() {
    let b = Buffer::from_string("abc");
    let inserted = buffer::insert_at(&b, 0, 1, "\n");
    assert_eq!(buffer::content(&inserted), "a\nbc");
    let restored = buffer::delete_char_range(&inserted, 0, 1, 1, 0);
    assert_eq!(buffer::content(&restored), "abc");
}

#[test]
fn motions_keep_the_cursor_inside_the_buffer() {
    let b = Buffer::from_string("one\nlonger line\nx");
    let starts = [Cursor { line: 0, column: 3 }, Cursor { line: 1, column: 11 }, Cursor { line: 2, column: 0 }];
    for c in starts {
        for moved in [
            cursor::move_up(c, &b),
            cursor::move_down(c, &b),
            cursor::move_left(c, &b),
            cursor::move_right(c, &b),
            cursor::move_to_line_start(c, &b),
            cursor::move_to_line_end(c, &b),
            cursor::move_to_document_start(c, &b),
            cursor::move_to_document_end(c, &b),
        ] {
            assert!(moved.line < buffer::line_count(&b));
            assert!(moved.column <= buffer::get_line_content(&b, moved.line).chars().count());
        }
    }
    let clamped = cursor::ensure_within_bounds(Cursor { line: 9, column: 9 }, &b);
    assert_eq!(clamped, Cursor { line: 2, column: 1 });
    assert_eq!(cursor::ensure_within_bounds(clamped, &b), clamped);
}

#[test]
fn a_defined_key_resolves_to_its_command() {
    let mut st = editor_state::new(80, 24);
    assert_eq!(make_keymap(&mut st, &vec![s("custom")]), Ok(Reply::Nil));
    assert_eq!(define_key(&mut st, &vec![s("custom"), s("Ctrl:s"), s("save")]), Ok(Reply::Nil));
    assert_eq!(set_active_keymap(&mut st, &vec![s("custom")]), Ok(Reply::Nil));
    assert_eq!(editor_state::resolve_key(&st, KeyEvent::new(KeyCode::Char('s'), Modifiers::ctrl())), Some("save".to_string()));
    assert_eq!(editor_state::resolve_key(&st, KeyEvent::plain(KeyCode::Char('s'))), None);
}

#[test]
fn a_defined_panel_is_found_and_a_removed_one_is_gone() {
    let mut reg = panel::new();
    panel::define_panel(&mut reg, "status", PanelPosition::Bottom, 1).unwrap();
    panel::define_panel(&mut reg, "side", PanelPosition::Left, 20).unwrap();
    let found = panel::get(&reg, "side").unwrap();
    assert_eq!(found.size, 20);
    assert_eq!(found.position, PanelPosition::Left);
    panel::remove_panel(&mut reg, "side");
    assert!(panel::get(&reg, "side").is_none());
    assert!(panel::get(&reg, "status").is_some());
}

#[test]
fn joining_a_split_gives_the_text_back() {
    for (text, d) in [("a,b,,c", ","), ("", ","), ("abc", ""), ("x--y--", "--"), ("none", ";")] {
        let parts = split_text(text, d);
        assert_eq!(join_strings(&parts, d), text);
    }
    assert_eq!(split_text("a,b,,c", ","), vec!["a", "b", "", "c"]);
}

#[test]
fn replacing_a_text_by_itself_changes_nothing() {
    for (text, x) in [("banana", "an"), ("banana", ""), ("", "q"), ("aaa", "aa")] {
        assert_eq!(replace_text(text, x, x), text);
    }
}

#[test]
fn a_formatted_color_parses_back() {
    let colors = [
        ThemeColor::Rgb(255, 87, 51),
        ThemeColor::Rgb(0, 0, 0),
        ThemeColor::Rgb(171, 205, 239),
        ThemeColor::Named(NamedColor::DarkGray),
        ThemeColor::Named(NamedColor::LightMagenta),
        ThemeColor::Named(NamedColor::Red),
    ];
    for c in colors {
        assert_eq!(parse_color(&format_theme_color(&c)), Some(c));
    }
    assert_eq!(format_theme_color(&ThemeColor::Rgb(255, 87, 51)), "#ff5733");
}

#[test]
fn a_line_start_reads_back_as_column_zero() {
    let text = "hello\nworld\n\nend";
    for l in 0..4 {
        assert_eq!(byte_offset_to_point(text, line_to_byte_offset(text, l)), (l, 0));
    }
    assert_eq!(line_to_byte_offset("hello\nworld", 1), 6);
    assert_eq!(byte_offset_to_point("hello\nworld", 8), (1, 2));
}

#[test]
fn an_edit_is_the_differing_middle() {
    let old = "let x = 10;\nlet y = 2;";
    let new = "let x = 12345;\nlet y = 2;";
    let e = compute_edit_notification(old, new).unwrap();
    assert_eq!(e.start_byte, 9);
    assert_eq!(&old[e.old_end_byte..], &new[e.new_end_byte..]);
    let rebuilt = format!("{}{}{}", &old[..e.start_byte], &new[e.start_byte..e.new_end_byte], &old[e.old_end_byte..]);
    assert_eq!(rebuilt, new);
    assert!(compute_edit_notification(old, old).is_none());
}

#[test]
fn whitespace_and_word_chars_are_told_apart() {
    for c in [' ', '\t', '\n', '\u{a0}', '\u{3000}'] {
        assert!(char_is_whitespace(c));
    }
    for c in ['a', '.', '-', '_', '\u{e9}'] {
        assert!(!char_is_whitespace(c));
    }
    assert!(char_is_alphanumeric('a') && char_is_alphanumeric('Z') && char_is_alphanumeric('7'));
    assert!(!char_is_alphanumeric('.') && !char_is_alphanumeric(' ') && !char_is_alphanumeric('-'));
}

#[test]
fn plugin_directories_and_startup_messages() {
    assert!(is_plugin_dir(true, Some("vim")));
    assert!(!is_plugin_dir(true, Some("vim.disabled")));
    assert!(!is_plugin_dir(false, Some("vim")));
    let dir = PathBuf::from("/p/vim");
    let init = PathBuf::from("/p/vim/init.lisp");
    assert!(matches!(
        plugin_from_init(dir.clone(), init.clone(), None),
        Err(PluginError::MissingInitFile { path }) if path == dir
    ));
    assert!(matches!(
        plugin_from_init(dir.clone(), init.clone(), Some(Err("denied".to_string()))),
        Err(PluginError::ReadError { path, message }) if path == init && message == "denied"
    ));
    let meta = plugin_from_init(dir, init.clone(), Some(Ok(";;; name: vim\n;;; version: 1.0\n".to_string()))).unwrap();
    assert_eq!(meta.name, "vim");
    assert_eq!(meta.version, "1.0");
    assert_eq!(meta.source_path, init);
    assert_eq!(plugin_errors_message(&vec![]), None);
    assert_eq!(
        plugin_errors_message(&vec!["a".to_string(), "b".to_string()]),
        Some("Plugin errors: a; b".to_string())
    );
    assert_eq!(appended_message(None, "Config error: x".to_string()), "Config error: x");
    assert_eq!(appended_message(Some("m".to_string()), "Config error: x".to_string()), "m; Config error: x");
}

#[test]
fn a_search_finds_the_first_occurrence_after_the_start_and_wraps_round() {
    let b = Buffer::from_string("ab ab\nxx ab\n");
    assert_eq!(buffer::find_forward(&b, 0, 0, "ab"), Some((0, 3)));
    assert_eq!(buffer::find_forward(&b, 0, 3, "ab"), Some((1, 3)));
    assert_eq!(buffer::find_forward(&b, 1, 3, "ab"), Some((0, 0)));
    assert_eq!(buffer::find_forward(&b, 0, 0, "zz"), None);
    assert_eq!(buffer::find_forward(&b, 0, 0, ""), None);
}

#[test]
fn hook_ids_are_handed_out_once_each_in_order() {
    let mut registry = HookRegistry::<u8>::new();
    let a = register_hook(&mut registry, "h1", Rc::new(1u8));
    let b = register_hook(&mut registry, "h2", Rc::new(2u8));
    let c = register_hook(&mut registry, "h1", Rc::new(3u8));
    assert_eq!((a.0, b.0, c.0), (0, 1, 2));
}

#[test]
fn the_brackets_found_are_a_balanced_pair_round_the_cursor() {
    let b = Buffer::from_string("f(a, (b), c)");
    let (s, e) = inner_parens(cursor::new(0, 3), &b, '(', ')').unwrap();
    assert_eq!((s.column, e.column), (2, 11));
    let (s, e) = inner_parens(cursor::new(0, 6), &b, '(', ')').unwrap();
    assert_eq!((s.column, e.column), (6, 7));
    assert_eq!(inner_parens(cursor::new(0, 0), &b, '(', ')'), None);
}

#[test]
fn an_inner_word_is_a_maximal_run_of_one_char_class() {
    let b = Buffer::from_string("foo.bar  baz_1");
    let r = |col: usize| inner_word(cursor::new(0, col), &b).map(|(s, e)| (s.column, e.column));
    assert_eq!(r(1), Some((0, 3)));
    assert_eq!(r(3), Some((3, 4)));
    assert_eq!(r(5), Some((4, 7)));
    assert_eq!(r(7), Some((7, 9)));
    assert_eq!(r(10), Some((9, 14)));
    assert_eq!(r(14), None);
}

#[test]
fn joining_two_lines_leaves_one_line_fewer_and_the_others_in_place() {
    let b = Buffer::from_string("one\ntwo\n\nthree\nfour");
    let r = buffer::join_lines(&b, 1);
    assert_eq!(buffer::line_count(&r), buffer::line_count(&b) - 1);
    assert_eq!(buffer::get_line_content(&r, 0), "one");
    assert_eq!(buffer::get_line_content(&r, 1), "two");
    assert_eq!(buffer::get_line_content(&r, 2), "three");
    assert_eq!(buffer::get_line_content(&r, 3), "four");
    let r = buffer::join_lines(&b, 3);
    assert_eq!(buffer::line_count(&r), 4);
    assert_eq!(buffer::get_line_content(&r, 3), "three four");
    assert_eq!(buffer::get_line_content(&r, 2), "");
}

#[test]
fn every_line_in_bounds_is_read_whole_however_the_rope_is_chunked() {
    let long_line = "ab ".repeat(2000);
    let text = format!("first\n{}\n(\n)\nx)", long_line);
    let b = Buffer::from_string(&text);
    assert_eq!(buffer::get_line(&b, 1), Some(format!("{}\n", long_line)));
    assert_eq!(buffer::get_line(&b, 9), None);
    for col in [0usize, 1, 1500, 4000, 5998] {
        let expected = if col % 3 == 2 { (col, col + 1) } else { (col - col % 3, col - col % 3 + 2) };
        let r = inner_word(cursor::new(1, col), &b).map(|(s, e)| (s.column, e.column));
        assert_eq!(r, Some(expected), "column {}", col);
    }
    let r = inner_parens(cursor::new(2, 1), &b, '(', ')').map(|(s, e)| ((s.line, s.column), (e.line, e.column)));
    assert_eq!(r, Some(((2, 1), (3, 0))));
    assert_eq!(inner_parens(cursor::new(4, 0), &b, '(', ')'), None);
    let b2 = Buffer::from_string("a(b(c)d)e");
    let r = inner_parens(cursor::new(0, 6), &b2, '(', ')').map(|(s, e)| (s.column, e.column));
    assert_eq!(r, Some((2, 7)));
}

#[test]
fn the_builtin_commands_are_registered_under_their_names() {
    let table = builtin_commands();
    assert_eq!(table.len(), 15);
    assert_eq!(table[4], ("delete-backward", BuiltinCommand::DeleteBackward));
    let mut registry = CommandRegistry::<BuiltinCommand>::new();
    command::register_builtin_commands(&mut registry, |c| c);
    for (name, c) in table {
        assert_eq!(command::lookup(&registry, name), Some(&c));
    }
    assert_eq!(command::lookup(&registry, "no-such-command"), None);
}
