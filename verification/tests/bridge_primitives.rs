use std::rc::Rc;

use alfred::bridge::{Arg, ArgKind, Reply};
use alfred::buffer::{self, Buffer};
use alfred::command::{self, CommandRegistry};
use alfred::cursor;
use alfred::editor_state::{self, EditorState};
use alfred::hook::{self, HookRegistry};
use alfred::key_event::{KeyCode, KeyEvent, Modifiers};
use alfred::lisp_editor::{
    buffer_content, buffer_delete, buffer_filename, buffer_insert, buffer_modified, current_mode, cursor_move,
    buffer_get_line, buffer_line_count, clear_line_styles, cursor_position, define_key, make_keymap, message,
    remove_hook, set_active_keymap, set_line_style, set_mode, viewport_height, viewport_top_line,
};
use alfred::lisp_panels::{
    clear_panel_lines, define_panel, focus_panel, panel_cursor_down, panel_cursor_line, panel_cursor_up,
    panel_entry_count, panel_set_cursor, remove_panel, set_panel_content, set_panel_line, set_panel_size,
    set_panel_style, unfocus_panel,
};
use alfred::panel::{self, PanelPosition, PanelRegistry};
use alfred::lisp_lists::{
    native_append, native_cons, native_filter, native_first, native_for_each, native_is_list, native_is_nil,
    native_is_number, native_is_string, native_length, native_map, native_nth, native_range, native_reduce,
    native_rest, native_reverse,
};
use alfred::lisp_settings::{
    default_cursor_shapes, get_cursor_shape, get_tab_width, set_cursor_shape, set_tab_width, DEFAULT_TAB_WIDTH,
};
use alfred::error::AlfredError;
use alfred::lisp_files::{finish_open, path_join_prim, path_parent_prim, save_target};
use alfred::lisp_strings::{
    native_parse_int, native_str_contains, native_str_ends_with, native_str_index_of, native_str_join,
    native_str_length, native_str_lower, native_str_replace, native_str_split, native_str_starts_with,
    native_str_substring, native_str_trim, native_str_upper, native_str_variadic, native_to_string,
};
use alfred::lisp_theme::{define_theme, get_theme_color, load_theme, set_theme_color};
use alfred::str_map::StrMap;
use alfred::theme::{new_theme, NamedColor, Theme, ThemeColor};
use alfred::lisp_hooks::{check_callback_args, flatten_results, hook_callback_reply, hook_errors_message, hook_string_args};

fn s(t: &str) -> Arg<()> {
    Arg { kind: ArgKind::Str(t.to_string()), shown: format!("\"{}\"", t), value: () }
}

fn i(n: i32) -> Arg<()> {
    Arg { kind: ArgKind::Int(n), shown: n.to_string(), value: () }
}

fn sym(t: &str) -> Arg<()> {
    Arg { kind: ArgKind::Symbol(t.to_string()), shown: t.to_string(), value: () }
}

fn lambda() -> Arg<()> {
    Arg { kind: ArgKind::Callable, shown: "<lambda>".to_string(), value: () }
}

fn none() -> Vec<Arg<()>> {
    Vec::new()
}

fn state_with(text: &str, line: usize, column: usize) -> EditorState {
    let mut st = editor_state::new(80, 24);
    st.buffer = Buffer::from_string(text);
    st.cursor = cursor::new(line, column);
    st
}

#[test]
fn given_buffer_with_text_when_buffer_insert_evaluated_then_buffer_contains_inserted_text() {
    let mut st = state_with("Hello", 0, 5);
    buffer_insert(&mut st, &vec![s(" World")]).unwrap();
    assert_eq!(buffer::content(&st.buffer), "Hello World");
}

#[test]
fn given_empty_buffer_when_buffer_insert_evaluated_then_buffer_contains_text() {
    let mut st = editor_state::new(80, 24);
    buffer_insert(&mut st, &vec![s("hello")]).unwrap();
    assert_eq!(buffer::content(&st.buffer), "hello");
}

#[test]
fn given_buffer_with_text_when_buffer_delete_evaluated_then_character_removed() {
    let mut st = state_with("Hello", 0, 4);
    buffer_delete::<()>(&mut st).unwrap();
    assert_eq!(buffer::content(&st.buffer), "Hell");
}

#[test]
fn given_buffer_with_text_when_buffer_content_evaluated_then_returns_text() {
    let st = state_with("Test content", 0, 0);
    assert_eq!(buffer_content::<()>(&st), Ok(Reply::Str("Test content".to_string())));
}

#[test]
fn given_cursor_at_known_position_when_cursor_position_evaluated_then_returns_line_and_column() {
    let st = state_with("Line 1\nLine 2\nLine 3", 2, 3);
    assert_eq!(cursor_position::<()>(&st), Ok(Reply::Ints(vec![2, 3])));
}

#[test]
fn given_runtime_with_primitives_when_buffer_insert_wrong_type_then_returns_error() {
    let mut st = editor_state::new(80, 24);
    assert!(buffer_insert(&mut st, &vec![i(42)]).is_err());
}

#[test]
fn given_runtime_with_primitives_when_buffer_insert_no_args_then_returns_error() {
    let mut st = editor_state::new(80, 24);
    assert!(buffer_insert(&mut st, &none()).is_err());
}

#[test]
fn given_multiline_buffer_when_cursor_move_down_evaluated_then_cursor_moves_down() {
    let mut st = state_with("Line 1\nLine 2\nLine 3", 0, 0);
    cursor_move(&mut st, &vec![sym(":down"), i(1)]).unwrap();
    assert_eq!(st.cursor.line, 1);
    assert_eq!(st.cursor.column, 0);
}

#[test]
fn given_cursor_at_line_1_when_cursor_move_up_then_cursor_moves_to_line_0() {
    let mut st = state_with("Line 1\nLine 2", 1, 0);
    cursor_move(&mut st, &vec![sym(":up")]).unwrap();
    assert_eq!(st.cursor.line, 0);
}

#[test]
fn given_cursor_at_col_0_when_cursor_move_right_then_cursor_moves_to_col_1() {
    let mut st = state_with("Hello", 0, 0);
    cursor_move(&mut st, &vec![sym(":right")]).unwrap();
    assert_eq!(st.cursor.column, 1);
}

#[test]
fn given_cursor_at_col_3_when_cursor_move_left_then_cursor_moves_to_col_2() {
    let mut st = state_with("Hello", 0, 3);
    cursor_move(&mut st, &vec![sym(":left")]).unwrap();
    assert_eq!(st.cursor.column, 2);
}

#[test]
fn given_multiline_buffer_when_cursor_move_down_with_count_3_then_cursor_moves_3_lines() {
    let mut st = state_with("L1\nL2\nL3\nL4\nL5", 0, 0);
    cursor_move(&mut st, &vec![sym(":down"), i(3)]).unwrap();
    assert_eq!(st.cursor.line, 3);
}

#[test]
fn given_multiline_buffer_when_cursor_move_with_string_direction_then_cursor_moves() {
    let mut st = state_with("Line 1\nLine 2", 0, 0);
    cursor_move(&mut st, &vec![s("down"), i(1)]).unwrap();
    assert_eq!(st.cursor.line, 1);
}

#[test]
fn given_runtime_when_cursor_move_with_wrong_direction_type_then_returns_error() {
    let mut st = state_with("Hello", 0, 0);
    assert!(cursor_move(&mut st, &vec![i(42)]).is_err());
}

#[test]
fn given_runtime_when_cursor_move_with_invalid_direction_then_returns_error() {
    let mut st = state_with("Hello", 0, 0);
    assert!(cursor_move(&mut st, &vec![sym(":diagonal")]).is_err());
}

#[test]
fn given_runtime_when_cursor_move_no_args_then_returns_error() {
    let mut st = editor_state::new(80, 24);
    assert!(cursor_move(&mut st, &none()).is_err());
}

#[test]
fn given_runtime_when_message_evaluated_then_editor_message_is_set() {
    let mut st = editor_state::new(80, 24);
    message(&mut st, &vec![s("hello world")]).unwrap();
    assert_eq!(st.message, Some("hello world".to_string()));
}

#[test]
fn given_runtime_when_message_with_wrong_type_then_returns_error() {
    let mut st = editor_state::new(80, 24);
    assert!(message(&mut st, &vec![i(42)]).is_err());
}

#[test]
fn given_runtime_when_message_no_args_then_returns_error() {
    let mut st = editor_state::new(80, 24);
    assert!(message(&mut st, &none()).is_err());
}

#[test]
fn given_normal_mode_when_current_mode_evaluated_then_returns_normal() {
    let st = editor_state::new(80, 24);
    assert_eq!(current_mode::<()>(&st), Ok(Reply::Str("normal".to_string())));
}

type Command = Box<dyn Fn(&mut EditorState)>;

/// Registers a command the way `define-command` does once its arguments
/// are checked.
fn define_command(registry: &mut CommandRegistry<Command>, args: &Vec<Arg<()>>, run: Command) -> Result<(), String> {
    let name = check_callback_args(args, "define-command")?;
    command::register(registry, name, run);
    Ok(())
}

fn execute(registry: &CommandRegistry<Command>, st: &mut EditorState, name: &str) {
    let f = command::find_command(registry, name).unwrap();
    f(st);
}

#[test]
fn given_runtime_when_define_command_with_lambda_then_command_registered_in_editor() {
    let mut registry: CommandRegistry<Command> = CommandRegistry::new();
    let run: Command = Box::new(|st| {
        message(st, &vec![s("invoked")]).unwrap();
    });
    define_command(&mut registry, &vec![s("test-cmd"), lambda()], run).unwrap();
    assert!(command::lookup(&registry, "test-cmd").is_some());
}

#[test]
fn given_runtime_when_define_command_with_wrong_args_then_returns_error() {
    assert!(check_callback_args(&none(), "define-command").is_err());
    assert!(check_callback_args(&vec![i(42), lambda()], "define-command").is_err());
}

#[test]
fn given_define_command_with_simple_lambda_when_executed_then_callback_runs() {
    let mut registry: CommandRegistry<Command> = CommandRegistry::new();
    let mut st = editor_state::new(80, 24);
    let run: Command = Box::new(|st| {
        message(st, &vec![s("direct")]).unwrap();
    });
    define_command(&mut registry, &vec![s("simple-msg"), lambda()], run).unwrap();
    execute(&registry, &mut st, "simple-msg");
    assert_eq!(st.message, Some("direct".to_string()));
}

#[test]
fn given_define_then_define_command_when_executed_then_can_access_defined_variable() {
    let mut registry: CommandRegistry<Command> = CommandRegistry::new();
    let mut st = editor_state::new(80, 24);
    let greeting = "hi there".to_string();
    let run: Command = Box::new(move |st| {
        message(st, &vec![s(&greeting)]).unwrap();
    });
    define_command(&mut registry, &vec![s("test-greet"), lambda()], run).unwrap();
    execute(&registry, &mut st, "test-greet");
    assert_eq!(st.message, Some("hi there".to_string()));
}

#[test]
fn given_define_then_define_command_when_executed_then_can_access_defined_function() {
    let mut registry: CommandRegistry<Command> = CommandRegistry::new();
    let mut st = editor_state::new(80, 24);
    let greet = |name: &str| alfred::lisp_strings::join_strings(&vec!["Hello".to_string(), name.to_string()], " ");
    let run: Command = Box::new(move |st| {
        message(st, &vec![s(&greet("World"))]).unwrap();
    });
    define_command(&mut registry, &vec![s("test-greet"), lambda()], run).unwrap();
    execute(&registry, &mut st, "test-greet");
    assert_eq!(st.message, Some("Hello World".to_string()));
}

type Callback = Box<dyn Fn(&[String]) -> Result<Arg<()>, String>>;

/// Dispatches a hook the way `dispatch-hook` does: every callback on the
/// string arguments, errors gathered into the message.
fn dispatch(hooks: &HookRegistry<Callback>, st: &mut EditorState, args: &Vec<Arg<()>>) -> Vec<String> {
    let name = alfred::bridge::extract_string_arg(args, "dispatch-hook").unwrap();
    let hook_args = hook_string_args(args);
    let mut errors: Vec<String> = Vec::new();
    let mut results: Vec<Vec<String>> = Vec::new();
    for cb in hook::get_callbacks(hooks, &name) {
        match hook_callback_reply(cb(&hook_args)) {
            Ok(v) => results.push(v),
            Err(e) => {
                errors.push(e);
                results.push(Vec::new());
            }
        }
    }
    if let Some(m) = hook_errors_message(&errors) {
        st.message = Some(m);
    }
    flatten_results(results)
}

fn add_hook(hooks: &mut HookRegistry<Callback>, args: &Vec<Arg<()>>, cb: Callback) -> Result<i32, String> {
    let name = check_callback_args(args, "add-hook")?;
    Ok(hook::register_hook(hooks, &name, Rc::new(cb)).0 as i32)
}

#[test]
fn given_lisp_lambda_when_add_hook_and_dispatch_hook_then_callback_called_with_args_and_results_returned() {
    let mut hooks: HookRegistry<Callback> = HookRegistry::new();
    let mut st = editor_state::new(80, 24);
    let cb: Callback = Box::new(|a: &[String]| Ok(s(&format!("saved:{}", a[0]))));
    add_hook(&mut hooks, &vec![s("on-save"), lambda()], cb).unwrap();
    let results = dispatch(&hooks, &mut st, &vec![s("on-save"), s("myfile.txt")]);
    assert_eq!(results, vec!["saved:myfile.txt".to_string()]);
}

#[test]
fn given_add_hook_when_evaluated_then_returns_hook_id_as_integer() {
    let mut hooks: HookRegistry<Callback> = HookRegistry::new();
    let cb: Callback = Box::new(|_a: &[String]| Ok(s("ok")));
    assert_eq!(add_hook(&mut hooks, &vec![s("test-hook"), lambda()], cb), Ok(0));
}

#[test]
fn given_dispatch_hook_on_unknown_hook_when_evaluated_then_returns_empty_list() {
    let hooks: HookRegistry<Callback> = HookRegistry::new();
    let mut st = editor_state::new(80, 24);
    assert!(dispatch(&hooks, &mut st, &vec![s("nonexistent")]).is_empty());
}

#[test]
fn given_multiple_hooks_when_dispatched_then_all_callback_results_returned() {
    let mut hooks: HookRegistry<Callback> = HookRegistry::new();
    let mut st = editor_state::new(80, 24);
    add_hook(&mut hooks, &vec![s("multi"), lambda()], Box::new(|_a: &[String]| Ok(s("first")))).unwrap();
    add_hook(&mut hooks, &vec![s("multi"), lambda()], Box::new(|_a: &[String]| Ok(s("second")))).unwrap();
    let results = dispatch(&hooks, &mut st, &vec![s("multi")]);
    assert_eq!(results, vec!["first".to_string(), "second".to_string()]);
}

#[test]
fn given_hook_callback_that_errors_when_dispatched_then_error_shown_as_message_not_crash() {
    let mut hooks: HookRegistry<Callback> = HookRegistry::new();
    let mut st = editor_state::new(80, 24);
    let cb: Callback = Box::new(|_a: &[String]| Err("undefined-fn is not defined".to_string()));
    add_hook(&mut hooks, &vec![s("err-hook"), lambda()], cb).unwrap();
    let results = dispatch(&hooks, &mut st, &vec![s("err-hook")]);
    assert!(results.is_empty());
    assert_eq!(st.message, Some("Hook error: undefined-fn is not defined".to_string()));
}

#[test]
fn given_remove_hook_when_evaluated_then_callback_no_longer_dispatched() {
    let mut hooks: HookRegistry<Callback> = HookRegistry::new();
    let mut st = editor_state::new(80, 24);
    let cb: Callback = Box::new(|_a: &[String]| Ok(s("should-not-appear")));
    let id = add_hook(&mut hooks, &vec![s("removable"), lambda()], cb).unwrap();
    remove_hook(&mut hooks, &vec![s("removable"), i(id)]).unwrap();
    assert!(dispatch(&hooks, &mut st, &vec![s("removable")]).is_empty());
}

#[test]
fn given_buffer_without_filename_when_buffer_filename_evaluated_then_returns_empty_string() {
    let st = editor_state::new(80, 24);
    assert_eq!(buffer_filename::<()>(&st), Ok(Reply::Str(String::new())));
}

#[test]
fn given_unmodified_buffer_when_buffer_modified_evaluated_then_returns_false() {
    let st = editor_state::new(80, 24);
    assert_eq!(buffer_modified::<()>(&st), Ok(Reply::Bool(false)));
}

#[test]
fn given_modified_buffer_when_buffer_modified_evaluated_then_returns_true() {
    let mut st = editor_state::new(80, 24);
    buffer_insert(&mut st, &vec![s("text")]).unwrap();
    assert_eq!(buffer_modified::<()>(&st), Ok(Reply::Bool(true)));
}

#[test]
fn given_add_hook_with_wrong_args_when_evaluated_then_returns_error() {
    assert!(check_callback_args(&none(), "add-hook").is_err());
    assert!(check_callback_args(&vec![i(42), lambda()], "add-hook").is_err());
    assert!(check_callback_args(&vec![s("test"), i(42)], "add-hook").is_err());
}

#[test]
fn given_runtime_with_keymap_primitives_when_make_keymap_then_keymap_exists_in_state() {
    let mut st = editor_state::new(80, 24);
    make_keymap(&mut st, &vec![s("insert")]).unwrap();
    assert!(st.keymaps.contains_key("insert"));
}

#[test]
fn given_runtime_when_set_active_keymap_then_active_keymaps_updated() {
    let mut st = editor_state::new(80, 24);
    make_keymap(&mut st, &vec![s("visual")]).unwrap();
    set_active_keymap(&mut st, &vec![s("visual")]).unwrap();
    assert_eq!(st.active_keymaps, vec!["visual".to_string()]);
}

#[test]
fn given_various_key_specs_when_define_key_then_all_parsed_correctly() {
    let mut st = editor_state::new(80, 24);
    make_keymap(&mut st, &vec![s("test")]).unwrap();
    let specs_and_expected: Vec<(&str, KeyEvent)> = vec![
        ("Up", KeyEvent::plain(KeyCode::Up)),
        ("Down", KeyEvent::plain(KeyCode::Down)),
        ("Left", KeyEvent::plain(KeyCode::Left)),
        ("Right", KeyEvent::plain(KeyCode::Right)),
        ("Enter", KeyEvent::plain(KeyCode::Enter)),
        ("Escape", KeyEvent::plain(KeyCode::Escape)),
        ("Backspace", KeyEvent::plain(KeyCode::Backspace)),
        ("Char:a", KeyEvent::plain(KeyCode::Char('a'))),
        ("Char::", KeyEvent::plain(KeyCode::Char(':'))),
        ("Ctrl:q", KeyEvent::new(KeyCode::Char('q'), Modifiers::ctrl())),
    ];
    for (n, (spec, expected)) in specs_and_expected.iter().enumerate() {
        let cmd = format!("cmd-{}", n);
        define_key(&mut st, &vec![s("test"), s(spec), s(&cmd)]).unwrap();
        let keymap = st.keymaps.get("test").unwrap();
        assert_eq!(keymap.get(expected), Some(&cmd), "key-spec '{}' should parse correctly", spec);
    }
}

#[test]
fn given_invalid_key_spec_when_define_key_then_returns_error() {
    let mut st = editor_state::new(80, 24);
    make_keymap(&mut st, &vec![s("test")]).unwrap();
    assert!(define_key(&mut st, &vec![s("test"), s("InvalidKey"), s("cmd")]).is_err());
}

#[test]
fn given_define_key_on_nonexistent_keymap_when_evaluated_then_returns_error() {
    let mut st = editor_state::new(80, 24);
    assert!(define_key(&mut st, &vec![s("nonexistent"), s("Up"), s("cmd")]).is_err());
}

#[test]
fn given_keymap_primitives_with_wrong_args_when_evaluated_then_returns_errors() {
    let mut st = editor_state::new(80, 24);
    assert!(make_keymap(&mut st, &none()).is_err());
    assert!(make_keymap(&mut st, &vec![i(42)]).is_err());
    assert!(define_key(&mut st, &vec![s("km")]).is_err());
    assert!(set_active_keymap(&mut st, &none()).is_err());
}

#[test]
fn given_keymap_primitives_when_make_keymap_define_key_set_active_then_keymap_stored_and_active() {
    let mut st = editor_state::new(80, 24);
    make_keymap(&mut st, &vec![s("normal")]).unwrap();
    define_key(&mut st, &vec![s("normal"), s("Ctrl:q"), s("quit")]).unwrap();
    define_key(&mut st, &vec![s("normal"), s("Up"), s("cursor-up")]).unwrap();
    set_active_keymap(&mut st, &vec![s("normal")]).unwrap();
    let keymap = st.keymaps.get("normal").expect("keymap 'normal' should exist");
    let ctrl_q = KeyEvent::new(KeyCode::Char('q'), Modifiers::ctrl());
    assert_eq!(keymap.get(&ctrl_q), Some(&"quit".to_string()));
    assert_eq!(keymap.get(&KeyEvent::plain(KeyCode::Up)), Some(&"cursor-up".to_string()));
    assert_eq!(st.active_keymaps, vec!["normal".to_string()]);
}

#[test]
fn given_normal_mode_when_set_mode_insert_then_current_mode_returns_insert_and_active_keymaps_updated() {
    let mut st = editor_state::new(80, 24);
    assert_eq!(current_mode::<()>(&st), Ok(Reply::Str("normal".to_string())));
    set_mode(&mut st, &vec![s("insert")]).unwrap();
    assert_eq!(current_mode::<()>(&st), Ok(Reply::Str("insert".to_string())));
    assert_eq!(st.active_keymaps, vec!["insert-mode".to_string()]);
}

#[test]
fn given_insert_mode_when_set_mode_normal_then_mode_is_normal_and_active_keymaps_updated() {
    let mut st = editor_state::new(80, 24);
    set_mode(&mut st, &vec![s("insert")]).unwrap();
    set_mode(&mut st, &vec![s("normal")]).unwrap();
    assert_eq!(current_mode::<()>(&st), Ok(Reply::Str("normal".to_string())));
    assert_eq!(st.active_keymaps, vec!["normal-mode".to_string()]);
}

#[test]
fn given_runtime_when_set_mode_with_wrong_type_then_returns_error() {
    let mut st = editor_state::new(80, 24);
    assert!(set_mode(&mut st, &vec![i(42)]).is_err());
}

#[test]
fn given_runtime_when_set_mode_no_args_then_returns_error() {
    let mut st = editor_state::new(80, 24);
    assert!(set_mode(&mut st, &none()).is_err());
}

#[test]
fn given_buffer_without_filename_when_save_buffer_no_args_then_returns_error() {
    let st = state_with("content", 0, 0);
    assert!(save_target(&st, &none()).is_err());
}

#[test]
fn given_theme_primitives_when_set_then_get_theme_color_then_returns_stored_value() {
    let mut theme = new_theme();
    set_theme_color(&mut theme, &vec![s("status-bar-bg"), s("#3c3836")]).unwrap();
    assert_eq!(get_theme_color(&theme, &vec![s("status-bar-bg")]), Ok(Reply::Str("#3c3836".to_string())));
}

#[test]
fn given_theme_primitives_when_set_theme_color_with_hex_then_stores_in_theme() {
    let mut theme = new_theme();
    set_theme_color(&mut theme, &vec![s("text-fg"), s("#ff5733")]).unwrap();
    assert_eq!(theme.get("text-fg"), Some(&ThemeColor::Rgb(255, 87, 51)));
}

#[test]
fn given_theme_primitives_when_set_theme_color_with_named_then_stores_in_theme() {
    let mut theme = new_theme();
    set_theme_color(&mut theme, &vec![s("gutter-fg"), s("cyan")]).unwrap();
    assert_eq!(theme.get("gutter-fg"), Some(&ThemeColor::Named(NamedColor::Cyan)));
}

#[test]
fn given_theme_primitives_when_set_theme_color_with_invalid_color_then_returns_error() {
    let mut theme = new_theme();
    assert!(set_theme_color(&mut theme, &vec![s("text-fg"), s("not-a-color")]).is_err());
}

#[test]
fn given_theme_primitives_when_get_theme_color_missing_key_then_returns_nil() {
    let theme = new_theme();
    assert_eq!(get_theme_color(&theme, &vec![s("nonexistent")]), Ok(Reply::Nil));
}

#[test]
fn given_theme_primitives_when_define_theme_with_pairs_then_stores_named_theme() {
    let mut named: StrMap<Theme> = StrMap::new();
    define_theme(&mut named, &vec![s("gruvbox"), s("text-fg"), s("#ebdbb2"), s("text-bg"), s("#282828")]).unwrap();
    let theme = named.get("gruvbox").expect("theme should exist");
    assert_eq!(theme.get("text-fg"), Some(&ThemeColor::Rgb(235, 219, 178)));
    assert_eq!(theme.get("text-bg"), Some(&ThemeColor::Rgb(40, 40, 40)));
}

#[test]
fn given_theme_primitives_when_define_theme_with_odd_args_then_returns_error() {
    let mut named: StrMap<Theme> = StrMap::new();
    assert!(define_theme(&mut named, &vec![s("bad"), s("key1"), s("#ff0000"), s("orphan")]).is_err());
}

#[test]
fn given_theme_primitives_when_define_theme_with_invalid_color_then_returns_error() {
    let mut named: StrMap<Theme> = StrMap::new();
    assert!(define_theme(&mut named, &vec![s("bad"), s("key1"), s("not-a-color")]).is_err());
}

#[test]
fn given_defined_theme_when_load_theme_then_copies_colors_to_active_theme() {
    let mut named: StrMap<Theme> = StrMap::new();
    let mut theme = new_theme();
    define_theme(&mut named, &vec![s("dracula"), s("text-fg"), s("#f8f8f2"), s("text-bg"), s("#282a36")]).unwrap();
    load_theme(&mut theme, &named, &vec![s("dracula")]).unwrap();
    assert_eq!(theme.get("text-fg"), Some(&ThemeColor::Rgb(248, 248, 242)));
    assert_eq!(theme.get("text-bg"), Some(&ThemeColor::Rgb(40, 42, 54)));
}

#[test]
fn given_theme_primitives_when_load_theme_nonexistent_then_returns_error() {
    let named: StrMap<Theme> = StrMap::new();
    let mut theme = new_theme();
    assert!(load_theme(&mut theme, &named, &vec![s("nonexistent")]).is_err());
}

#[test]
fn given_active_theme_with_colors_when_load_theme_then_overwrites_matching_keys() {
    let mut named: StrMap<Theme> = StrMap::new();
    let mut theme = new_theme();
    set_theme_color(&mut theme, &vec![s("text-fg"), s("#000000")]).unwrap();
    define_theme(&mut named, &vec![s("override"), s("text-fg"), s("#ffffff")]).unwrap();
    load_theme(&mut theme, &named, &vec![s("override")]).unwrap();
    assert_eq!(theme.get("text-fg"), Some(&ThemeColor::Rgb(255, 255, 255)));
}

#[test]
fn given_no_theme_plugin_loaded_when_theme_queried_then_all_slots_empty() {
    let theme = new_theme();
    assert!(theme.is_empty(), "Theme should be empty without plugin, but has {} entries", theme.len());
}

#[test]
fn given_runtime_when_set_cursor_shape_and_get_cursor_shape_then_round_trips() {
    let mut shapes = default_cursor_shapes();
    set_cursor_shape(&mut shapes, &vec![s("insert"), s("blinking-bar")]).unwrap();
    assert_eq!(get_cursor_shape(&shapes, &vec![s("insert")]), Ok(Reply::Str("blinking-bar".to_string())));
}

#[test]
fn given_runtime_when_set_cursor_shape_with_valid_shape_then_updates_state() {
    let mut shapes = default_cursor_shapes();
    set_cursor_shape(&mut shapes, &vec![s("normal"), s("blinking-block")]).unwrap();
    assert_eq!(shapes.get("normal"), Some(&"blinking-block".to_string()));
}

#[test]
fn given_runtime_when_set_cursor_shape_with_invalid_shape_then_returns_error() {
    let mut shapes = default_cursor_shapes();
    let r = set_cursor_shape(&mut shapes, &vec![s("normal"), s("triangle")]);
    assert_eq!(
        r,
        Err("set-cursor-shape: invalid shape \"triangle\". Valid shapes: default, block, steady-block, blinking-block, bar, steady-bar, blinking-bar, underline, steady-underline, blinking-underline".to_string())
    );
}

#[test]
fn given_runtime_when_set_cursor_shape_with_no_args_then_returns_error() {
    let mut shapes = default_cursor_shapes();
    assert!(set_cursor_shape(&mut shapes, &none()).is_err());
}

#[test]
fn given_runtime_when_set_cursor_shape_with_one_arg_then_returns_error() {
    let mut shapes = default_cursor_shapes();
    assert!(set_cursor_shape(&mut shapes, &vec![s("normal")]).is_err());
}

#[test]
fn given_default_state_when_get_cursor_shape_for_normal_then_returns_block() {
    let shapes = default_cursor_shapes();
    assert_eq!(get_cursor_shape(&shapes, &vec![s("normal")]), Ok(Reply::Str("block".to_string())));
}

#[test]
fn given_default_state_when_get_cursor_shape_for_insert_then_returns_bar() {
    let shapes = default_cursor_shapes();
    assert_eq!(get_cursor_shape(&shapes, &vec![s("insert")]), Ok(Reply::Str("bar".to_string())));
}

#[test]
fn given_runtime_when_get_cursor_shape_for_unknown_mode_then_returns_nil() {
    let shapes = default_cursor_shapes();
    assert_eq!(get_cursor_shape(&shapes, &vec![s("unknown-mode")]), Ok(Reply::Nil));
}

#[test]
fn given_runtime_when_get_cursor_shape_no_args_then_returns_error() {
    let shapes = default_cursor_shapes();
    assert!(get_cursor_shape(&shapes, &none()).is_err());
}

#[test]
fn given_runtime_when_set_cursor_shape_for_custom_mode_then_get_returns_it() {
    let mut shapes = default_cursor_shapes();
    set_cursor_shape(&mut shapes, &vec![s("visual"), s("underline")]).unwrap();
    assert_eq!(get_cursor_shape(&shapes, &vec![s("visual")]), Ok(Reply::Str("underline".to_string())));
}

#[test]
fn given_default_state_when_get_tab_width_then_returns_4() {
    assert_eq!(get_tab_width::<()>(DEFAULT_TAB_WIDTH), Ok(Reply::Int(4)), "Default tab width should be 4");
}

#[test]
fn given_runtime_when_set_tab_width_to_2_then_get_returns_2() {
    let mut width = DEFAULT_TAB_WIDTH;
    set_tab_width(&mut width, &vec![i(2)]).unwrap();
    assert_eq!(get_tab_width::<()>(width), Ok(Reply::Int(2)));
}

#[test]
fn given_runtime_when_set_tab_width_to_8_then_state_reflects_change() {
    let mut width = DEFAULT_TAB_WIDTH;
    set_tab_width(&mut width, &vec![i(8)]).unwrap();
    assert_eq!(width, 8);
}

#[test]
fn given_runtime_when_set_tab_width_to_zero_then_returns_error() {
    let mut width = DEFAULT_TAB_WIDTH;
    assert_eq!(set_tab_width(&mut width, &vec![i(0)]), Err("set-tab-width: value must be >= 1, got 0".to_string()));
    assert_eq!(width, 4);
}

#[test]
fn given_runtime_when_set_tab_width_to_negative_then_returns_error() {
    let mut width = DEFAULT_TAB_WIDTH;
    assert!(set_tab_width(&mut width, &vec![i(-1)]).is_err());
}

#[test]
fn given_runtime_when_set_tab_width_with_string_then_returns_error() {
    let mut width = DEFAULT_TAB_WIDTH;
    assert!(set_tab_width(&mut width, &vec![s("four")]).is_err());
}

#[test]
fn given_runtime_when_set_tab_width_with_no_args_then_returns_error() {
    let mut width = DEFAULT_TAB_WIDTH;
    assert!(set_tab_width(&mut width, &none()).is_err());
}

#[test]
fn given_styled_buffer_when_clear_line_styles_evaluated_then_line_styles_empty() {
    let mut st = state_with("a,b,c", 0, 0);
    set_line_style(&mut st, &vec![i(0), i(0), i(1), s("#ff6b6b")]).unwrap();
    assert!(!st.line_styles.is_empty());
    clear_line_styles::<()>(&mut st).unwrap();
    assert!(st.line_styles.is_empty());
}

#[test]
fn given_buffer_when_buffer_line_count_evaluated_then_returns_correct_count() {
    let st = state_with("a\nb\nc", 0, 0);
    assert_eq!(buffer_line_count::<()>(&st), Ok(Reply::Int(3)));
}

#[test]
fn given_buffer_when_buffer_get_line_evaluated_then_returns_line_content() {
    let st = state_with("hello\nworld", 0, 0);
    assert_eq!(buffer_get_line(&st, &vec![i(0)]), Ok(Reply::Str("hello".to_string())));
    assert_eq!(buffer_get_line(&st, &vec![i(1)]), Ok(Reply::Str("world".to_string())));
}

fn strings(v: &[&str]) -> Vec<String> {
    v.iter().map(|t| t.to_string()).collect()
}

fn list_of(items: Vec<Arg<()>>) -> Arg<Arg<()>> {
    Arg { kind: ArgKind::List(items), shown: "(...)".to_string(), value: s("") }
}

fn s2(t: &str) -> Arg<Arg<()>> {
    Arg { kind: ArgKind::Str(t.to_string()), shown: format!("\"{}\"", t), value: s(t) }
}

/// The empty string as `(str-substring "x" 0 0)` gives it.
fn empty_text() -> String {
    match native_str_substring(&vec![s("x"), i(0), i(0)]) {
        Ok(Reply::Str(t)) => t,
        other => panic!("expected a string, got {:?}", other),
    }
}

#[test]
fn given_delimited_string_when_str_split_then_returns_list_of_parts() {
    assert_eq!(native_str_split(&vec![s("a,b,c"), s(",")]), Ok(Reply::Strings(strings(&["a", "b", "c"]))));
}

#[test]
fn given_string_without_delimiter_when_str_split_then_returns_single_element_list() {
    assert_eq!(native_str_split(&vec![s("hello"), s(",")]), Ok(Reply::Strings(strings(&["hello"]))));
}

#[test]
fn given_list_of_strings_when_str_join_then_returns_joined_string() {
    assert_eq!(native_str_join(&vec![list_of(vec![s("a"), s("b")]), s2(",")]), Ok(Reply::Str("a,b".to_string())));
}

#[test]
fn given_empty_list_when_str_join_then_returns_empty_string() {
    assert_eq!(native_str_join(&vec![list_of(vec![]), s2(",")]), Ok(Reply::Str(String::new())));
}

#[test]
fn given_nonempty_string_when_str_length_then_returns_correct_length() {
    assert_eq!(native_str_length(&vec![s("hello")]), Ok(Reply::Int(5)));
}

#[test]
fn given_empty_string_when_str_length_then_returns_zero() {
    assert_eq!(native_str_length(&vec![s(&empty_text())]), Ok(Reply::Int(0)));
}

#[test]
fn given_string_containing_substring_when_str_contains_then_returns_true() {
    assert_eq!(native_str_contains(&vec![s("hello"), s("ell")]), Ok(Reply::True));
}

#[test]
fn given_string_not_containing_substring_when_str_contains_then_returns_nil() {
    assert_eq!(native_str_contains(&vec![s("hello"), s("xyz")]), Ok(Reply::Nil));
}

#[test]
fn given_string_with_pattern_when_str_replace_then_replaces_all_occurrences() {
    assert_eq!(native_str_replace(&vec![s("aabbcc"), s("bb"), s("XX")]), Ok(Reply::Str("aaXXcc".to_string())));
}

#[test]
fn given_string_without_pattern_when_str_replace_then_returns_original() {
    assert_eq!(native_str_replace(&vec![s("hello"), s("xyz"), s("ABC")]), Ok(Reply::Str("hello".to_string())));
}

#[test]
fn given_valid_indices_when_str_substring_then_returns_substring() {
    assert_eq!(native_str_substring(&vec![s("hello"), i(1), i(3)]), Ok(Reply::Str("el".to_string())));
}

#[test]
fn given_out_of_bounds_indices_when_str_substring_then_returns_error() {
    assert!(native_str_substring(&vec![s("hi"), i(0), i(10)]).is_err());
}

#[test]
fn given_string_with_whitespace_when_str_trim_then_returns_trimmed() {
    assert_eq!(native_str_trim(&vec![s("  hi  ")]), Ok(Reply::Str("hi".to_string())));
}

#[test]
fn given_already_trimmed_string_when_str_trim_then_returns_same() {
    assert_eq!(native_str_trim(&vec![s("hello")]), Ok(Reply::Str("hello".to_string())));
}

#[test]
fn given_lowercase_string_when_str_upper_then_returns_uppercase() {
    assert_eq!(native_str_upper(&vec![s("hello")]), Ok(Reply::Str("HELLO".to_string())));
}

#[test]
fn given_empty_string_when_str_upper_then_returns_empty() {
    assert_eq!(native_str_upper(&vec![s(&empty_text())]), Ok(Reply::Str(String::new())));
}

#[test]
fn given_uppercase_string_when_str_lower_then_returns_lowercase() {
    assert_eq!(native_str_lower(&vec![s("HELLO")]), Ok(Reply::Str("hello".to_string())));
}

#[test]
fn given_empty_string_when_str_lower_then_returns_empty() {
    assert_eq!(native_str_lower(&vec![s(&empty_text())]), Ok(Reply::Str(String::new())));
}

#[test]
fn given_matching_prefix_when_str_starts_with_then_returns_true() {
    assert_eq!(native_str_starts_with(&vec![s("hello"), s("he")]), Ok(Reply::True));
}

#[test]
fn given_non_matching_prefix_when_str_starts_with_then_returns_nil() {
    assert_eq!(native_str_starts_with(&vec![s("hello"), s("lo")]), Ok(Reply::Nil));
}

#[test]
fn given_matching_suffix_when_str_ends_with_then_returns_true() {
    assert_eq!(native_str_ends_with(&vec![s("hello"), s("lo")]), Ok(Reply::True));
}

#[test]
fn given_non_matching_suffix_when_str_ends_with_then_returns_nil() {
    assert_eq!(native_str_ends_with(&vec![s("hello"), s("he")]), Ok(Reply::Nil));
}

#[test]
fn given_string_containing_substring_when_str_index_of_then_returns_index() {
    assert_eq!(native_str_index_of(&vec![s("hello"), s("ll")]), Ok(Reply::Int(2)));
}

#[test]
fn given_string_not_containing_substring_when_str_index_of_then_returns_negative_one() {
    assert_eq!(native_str_index_of(&vec![s("hello"), s("xyz")]), Ok(Reply::Int(-1)));
}

#[test]
fn given_multiple_strings_when_str_then_returns_concatenation() {
    assert_eq!(native_str_variadic(&vec![s("a"), s("b"), s("c")]), Ok(Reply::Str("abc".to_string())));
}

#[test]
fn given_no_args_when_str_then_returns_empty_string() {
    assert_eq!(native_str_variadic(&none()), Ok(Reply::Str(String::new())));
}

#[test]
fn given_integer_when_to_string_then_returns_string_representation() {
    assert_eq!(native_to_string(&vec![i(42)]), Ok(Reply::Str("42".to_string())));
}

#[test]
fn given_string_when_to_string_then_returns_same_string() {
    assert_eq!(native_to_string(&vec![s("hello")]), Ok(Reply::Str("hello".to_string())));
}

#[test]
fn given_valid_integer_string_when_parse_int_then_returns_integer() {
    assert_eq!(native_parse_int(&vec![s("42")]), Ok(Reply::Int(42)));
}

#[test]
fn given_non_numeric_string_when_parse_int_then_returns_error() {
    assert!(native_parse_int(&vec![s("abc")]).is_err());
}

fn n(x: i32) -> Arg<i32> {
    Arg { kind: ArgKind::Int(x), shown: x.to_string(), value: x }
}

fn l(items: Vec<i32>) -> Arg<i32> {
    Arg { kind: ArgKind::List(items), shown: "(...)".to_string(), value: 0 }
}

fn ls(items: &[&str]) -> Arg<Arg<()>> {
    list_of(items.iter().map(|t| s(t)).collect())
}

fn func() -> Arg<i32> {
    Arg { kind: ArgKind::Callable, shown: "<lambda>".to_string(), value: 0 }
}

#[test]
fn given_non_empty_list_when_length_then_returns_count() {
    assert_eq!(native_length(&vec![l(vec![1, 2, 3])]), Ok(Reply::Int(3)));
}

#[test]
fn given_empty_list_when_length_then_returns_zero() {
    assert_eq!(native_length(&vec![l(vec![])]), Ok(Reply::Int(0)));
}

#[test]
fn given_valid_index_when_nth_then_returns_element() {
    let items = ls(&["a", "b", "c"]);
    let index = Arg { kind: ArgKind::Int(1), shown: "1".to_string(), value: s("") };
    match native_nth(vec![index, items]) {
        Ok(Reply::Item(a)) => assert_eq!(a.kind, ArgKind::Str("b".to_string())),
        other => panic!("expected an item, got {:?}", other),
    }
}

#[test]
fn given_out_of_bounds_index_when_nth_then_returns_nil() {
    assert_eq!(native_nth(vec![n(5), l(vec![1, 2])]), Ok(Reply::Nil));
}

#[test]
fn given_non_empty_list_when_first_then_returns_first_element() {
    assert_eq!(native_first(vec![l(vec![10, 20])]), Ok(Reply::Item(10)));
}

#[test]
fn given_empty_list_when_first_then_returns_nil() {
    assert_eq!(native_first(vec![l(vec![])]), Ok(Reply::Nil));
}

#[test]
fn given_non_empty_list_when_rest_then_returns_tail() {
    assert_eq!(native_rest(vec![l(vec![1, 2, 3])]), Ok(Reply::List(vec![2, 3])));
}

#[test]
fn given_single_element_list_when_rest_then_returns_nil() {
    assert_eq!(native_rest(vec![l(vec![1])]), Ok(Reply::List(vec![])));
}

#[test]
fn given_element_and_list_when_cons_then_returns_prepended_list() {
    assert_eq!(native_cons(vec![n(0), l(vec![1, 2])]), Ok(Reply::List(vec![0, 1, 2])));
}

#[test]
fn given_two_lists_when_append_then_returns_concatenated_list() {
    assert_eq!(native_append(vec![l(vec![1, 2]), l(vec![3, 4])]), Ok(Reply::List(vec![1, 2, 3, 4])));
}

#[test]
fn given_empty_and_non_empty_list_when_append_then_returns_second_list() {
    assert_eq!(native_append(vec![l(vec![]), l(vec![1, 2])]), Ok(Reply::List(vec![1, 2])));
}

#[test]
fn given_non_empty_list_when_reverse_then_returns_reversed_list() {
    assert_eq!(native_reverse(vec![l(vec![1, 2, 3])]), Ok(Reply::List(vec![3, 2, 1])));
}

#[test]
fn given_empty_list_when_reverse_then_returns_empty_list() {
    assert_eq!(native_reverse(vec![l(vec![])]), Ok(Reply::List(vec![])));
}

#[test]
fn given_start_and_end_when_range_then_returns_integer_list() {
    assert_eq!(native_range(&vec![n(0), n(3)]), Ok(Reply::Ints(vec![0, 1, 2])));
}

#[test]
fn given_equal_start_and_end_when_range_then_returns_empty_list() {
    assert_eq!(native_range(&vec![n(5), n(5)]), Ok(Reply::Ints(vec![])));
}

#[test]
fn given_lambda_and_list_when_map_then_returns_transformed_list() {
    assert_eq!(native_map(vec![func(), l(vec![1, 2, 3])], |x: &i32| Ok(x + 1)), Ok(Reply::List(vec![2, 3, 4])));
}

#[test]
fn given_lambda_and_empty_list_when_map_then_returns_empty_list() {
    assert_eq!(native_map(vec![func(), l(vec![])], |x: &i32| Ok(x + 1)), Ok(Reply::List(vec![])));
}

#[test]
fn given_predicate_and_list_when_filter_then_returns_matching_elements() {
    assert_eq!(native_filter(vec![func(), l(vec![1, 2, 3, 4])], |x: &i32| Ok(*x > 2)), Ok(Reply::List(vec![3, 4])));
}

#[test]
fn given_predicate_matching_nothing_when_filter_then_returns_empty_list() {
    assert_eq!(native_filter(vec![func(), l(vec![1, 2, 3])], |x: &i32| Ok(*x > 100)), Ok(Reply::List(vec![])));
}

#[test]
fn given_plus_and_list_when_reduce_then_returns_sum() {
    assert_eq!(native_reduce(vec![func(), n(0), l(vec![1, 2, 3])], |a: i32, x: &i32| Ok(a + x)), Ok(Reply::Item(6)));
}

#[test]
fn given_empty_list_when_reduce_then_returns_initial_value() {
    assert_eq!(native_reduce(vec![func(), n(0), l(vec![])], |a: i32, x: &i32| Ok(a + x)), Ok(Reply::Item(0)));
}

#[test]
fn given_lambda_and_list_when_for_each_then_returns_nil() {
    assert_eq!(native_for_each(vec![func(), l(vec![1, 2, 3])], |_x: &i32| Ok(())), Ok(Reply::Nil));
}

#[test]
fn given_string_when_string_predicate_then_returns_true() {
    assert_eq!(native_is_string(&vec![s("hello")]), Ok(Reply::True));
}

#[test]
fn given_integer_when_string_predicate_then_returns_nil() {
    assert_eq!(native_is_string(&vec![i(42)]), Ok(Reply::Nil));
}

#[test]
fn given_integer_when_number_predicate_then_returns_true() {
    assert_eq!(native_is_number(&vec![i(42)]), Ok(Reply::True));
}

#[test]
fn given_string_when_number_predicate_then_returns_nil() {
    assert_eq!(native_is_number(&vec![s("hello")]), Ok(Reply::Nil));
}

#[test]
fn given_list_when_list_predicate_then_returns_true() {
    assert_eq!(native_is_list(&vec![l(vec![1, 2])]), Ok(Reply::True));
}

#[test]
fn given_integer_when_list_predicate_then_returns_nil() {
    assert_eq!(native_is_list(&vec![n(42)]), Ok(Reply::Nil));
}

#[test]
fn given_nil_when_nil_predicate_then_returns_true() {
    assert_eq!(native_is_nil(&vec![l(vec![])]), Ok(Reply::True));
}

#[test]
fn given_non_nil_when_nil_predicate_then_returns_nil() {
    assert_eq!(native_is_nil(&vec![n(42)]), Ok(Reply::Nil));
}

#[test]
fn given_multiline_buffer_when_buffer_line_count_then_returns_correct_count() {
    let st = state_with("Line 1\nLine 2\nLine 3", 0, 0);
    assert_eq!(buffer_line_count::<()>(&st), Ok(Reply::Int(3)));
}

#[test]
fn given_list_when_map_filter_reduce_composed_then_returns_correct_result() {
    let mapped = match native_map(vec![func(), l(vec![1, 2, 3, 4])], |x: &i32| Ok(x + 1)) {
        Ok(Reply::List(v)) => v,
        other => panic!("expected a list, got {:?}", other),
    };
    let kept = match native_filter(vec![func(), l(mapped)], |x: &i32| Ok(*x > 2)) {
        Ok(Reply::List(v)) => v,
        other => panic!("expected a list, got {:?}", other),
    };
    assert_eq!(native_reduce(vec![func(), n(0), l(kept)], |a: i32, x: &i32| Ok(a + x)), Ok(Reply::Item(12)));
}

#[test]
fn given_csv_buffer_when_rainbow_csv_plugin_loaded_and_command_executed_then_line_styles_populated() {
    let mut st = state_with("a,b,c\n1,2,3", 0, 0);
    alfred::rainbow_csv::colorize_buffer(&mut st);
    assert!(!st.line_styles.is_empty());
    assert!(st.line_styles.contains_key(&0));
    assert!(st.line_styles.contains_key(&1));
    assert_eq!(st.line_styles.get(&0).unwrap().len(), 3);
    assert_eq!(st.line_styles.get(&1).unwrap().len(), 3);
}

fn rendering_state() -> EditorState {
    let mut st = state_with("Line 1\nLine 2\nLine 3\nLine 4\nLine 5", 0, 0);
    st.viewport.top_line = 3;
    st
}

#[test]
fn given_viewport_at_line_3_when_viewport_top_line_evaluated_then_returns_3() {
    assert_eq!(viewport_top_line::<()>(&rendering_state()), Ok(Reply::Int(3)));
}

#[test]
fn given_viewport_height_24_when_viewport_height_evaluated_then_returns_24() {
    assert_eq!(viewport_height::<()>(&rendering_state()), Ok(Reply::Int(24)));
}

fn panel_state() -> EditorState {
    let mut st = editor_state::new(80, 24);
    st.viewport.top_line = 5;
    st
}

#[test]
fn given_empty_registry_when_define_panel_evaluated_then_panel_exists() {
    let mut reg = panel::new();
    define_panel(&mut reg, &vec![s("status"), s("bottom"), i(1)]).unwrap();
    let p = panel::get(&reg, "status").expect("Panel 'status' should exist after define-panel");
    assert_eq!(p.position, PanelPosition::Bottom);
    assert_eq!(p.size, 1);
}

#[test]
fn given_panel_when_set_panel_content_evaluated_then_content_updated() {
    let mut reg = panel::new();
    define_panel(&mut reg, &vec![s("status"), s("bottom"), i(1)]).unwrap();
    set_panel_content(&mut reg, &vec![s("status"), s(" file.txt  Ln 1, Col 1 ")]).unwrap();
    assert_eq!(panel::get(&reg, "status").unwrap().content, " file.txt  Ln 1, Col 1 ");
}

#[test]
fn given_panel_when_set_panel_line_evaluated_then_line_content_stored() {
    let mut reg = panel::new();
    define_panel(&mut reg, &vec![s("gutter"), s("left"), i(4)]).unwrap();
    set_panel_line(&mut reg, &vec![s("gutter"), i(0), s("  1 ")]).unwrap();
    set_panel_line(&mut reg, &vec![s("gutter"), i(1), s("  2 ")]).unwrap();
    let p = panel::get(&reg, "gutter").unwrap();
    assert_eq!(p.lines.get(&0), Some(&"  1 ".to_string()));
    assert_eq!(p.lines.get(&1), Some(&"  2 ".to_string()));
}

#[test]
fn given_panel_when_set_panel_style_evaluated_then_colors_updated() {
    let mut reg = panel::new();
    define_panel(&mut reg, &vec![s("status"), s("bottom"), i(1)]).unwrap();
    set_panel_style(&mut reg, &vec![s("status"), s("#cdd6f4"), s("#313244")]).unwrap();
    let p = panel::get(&reg, "status").unwrap();
    assert_eq!(p.fg_color, Some("#cdd6f4".to_string()));
    assert_eq!(p.bg_color, Some("#313244".to_string()));
}

#[test]
fn given_panel_when_set_panel_style_with_default_then_colors_cleared() {
    let mut reg = panel::new();
    define_panel(&mut reg, &vec![s("status"), s("bottom"), i(1)]).unwrap();
    set_panel_style(&mut reg, &vec![s("status"), s("#cdd6f4"), s("#313244")]).unwrap();
    set_panel_style(&mut reg, &vec![s("status"), s("default"), s("default")]).unwrap();
    let p = panel::get(&reg, "status").unwrap();
    assert_eq!(p.fg_color, None);
    assert_eq!(p.bg_color, None);
}

#[test]
fn given_panel_when_remove_panel_evaluated_then_panel_gone() {
    let mut reg = panel::new();
    define_panel(&mut reg, &vec![s("status"), s("bottom"), i(1)]).unwrap();
    assert!(panel::get(&reg, "status").is_some());
    remove_panel(&mut reg, &vec![s("status")]).unwrap();
    assert!(panel::get(&reg, "status").is_none());
}

#[test]
fn given_panel_when_set_panel_size_evaluated_then_size_updated() {
    let mut reg = panel::new();
    define_panel(&mut reg, &vec![s("gutter"), s("left"), i(4)]).unwrap();
    set_panel_size(&mut reg, &vec![s("gutter"), i(6)]).unwrap();
    assert_eq!(panel::get(&reg, "gutter").unwrap().size, 6);
}

#[test]
fn given_panel_when_focus_panel_then_focused_panel_set() {
    let mut reg = panel::new();
    let mut focused: Option<String> = None;
    define_panel(&mut reg, &vec![s("sidebar"), s("left"), i(20)]).unwrap();
    focus_panel(&reg, &mut focused, &vec![s("sidebar")]).unwrap();
    assert_eq!(focused, Some("sidebar".to_string()));
}

#[test]
fn given_nonexistent_panel_when_focus_panel_then_error() {
    let reg = panel::new();
    let mut focused: Option<String> = None;
    assert!(focus_panel(&reg, &mut focused, &vec![s("nope")]).is_err());
}

#[test]
fn given_focused_panel_when_unfocus_panel_then_focused_panel_cleared() {
    let mut reg = panel::new();
    let mut focused: Option<String> = None;
    define_panel(&mut reg, &vec![s("sidebar"), s("left"), i(20)]).unwrap();
    focus_panel(&reg, &mut focused, &vec![s("sidebar")]).unwrap();
    unfocus_panel::<()>(&mut focused).unwrap();
    assert_eq!(focused, None);
}

fn tree_with(lines: &[&str]) -> PanelRegistry {
    let mut reg = panel::new();
    define_panel(&mut reg, &vec![s("tree"), s("left"), i(20)]).unwrap();
    for (k, text) in lines.iter().enumerate() {
        set_panel_line(&mut reg, &vec![s("tree"), i(k as i32), s(text)]).unwrap();
    }
    reg
}

#[test]
fn given_panel_with_lines_when_panel_cursor_down_then_cursor_advances() {
    let mut reg = tree_with(&["a", "b"]);
    panel_cursor_down(&mut reg, &vec![s("tree")]).unwrap();
    assert_eq!(panel::get(&reg, "tree").unwrap().cursor_line, 1);
}

#[test]
fn given_panel_with_cursor_at_1_when_panel_cursor_up_then_cursor_at_0() {
    let mut reg = tree_with(&["a", "b"]);
    panel_cursor_down(&mut reg, &vec![s("tree")]).unwrap();
    panel_cursor_up(&mut reg, &vec![s("tree")]).unwrap();
    assert_eq!(panel::get(&reg, "tree").unwrap().cursor_line, 0);
}

#[test]
fn given_panel_with_lines_when_panel_cursor_line_then_returns_position() {
    let mut reg = tree_with(&["a", "b"]);
    panel_cursor_down(&mut reg, &vec![s("tree")]).unwrap();
    assert_eq!(panel_cursor_line(&reg, &vec![s("tree")]), Ok(Reply::Int(1)));
}

#[test]
fn given_panel_with_3_lines_when_panel_entry_count_then_returns_3() {
    let reg = tree_with(&["a", "b", "c"]);
    assert_eq!(panel_entry_count(&reg, &vec![s("tree")]), Ok(Reply::Int(3)));
}

#[test]
fn given_viewport_at_line_5_when_viewport_top_line_evaluated_via_panel_runtime_then_returns_5() {
    assert_eq!(viewport_top_line::<()>(&panel_state()), Ok(Reply::Int(5)));
}

#[test]
fn given_viewport_height_24_when_viewport_height_evaluated_via_panel_runtime_then_returns_24() {
    assert_eq!(viewport_height::<()>(&panel_state()), Ok(Reply::Int(24)));
}

#[test]
fn given_panel_with_lines_when_clear_panel_lines_then_lines_empty() {
    let mut reg = tree_with(&["a", "b"]);
    clear_panel_lines(&mut reg, &vec![s("tree")]).unwrap();
    let p = panel::get(&reg, "tree").unwrap();
    assert!(p.lines.is_empty());
    assert_eq!(p.cursor_line, 0);
}

#[test]
fn given_nonexistent_panel_when_clear_panel_lines_then_error() {
    let mut reg = panel::new();
    assert!(clear_panel_lines(&mut reg, &vec![s("nope")]).is_err());
}

#[test]
fn given_panel_when_panel_set_cursor_then_cursor_at_target() {
    let mut reg = tree_with(&["a", "b", "c"]);
    panel_set_cursor(&mut reg, &vec![s("tree"), i(2)]).unwrap();
    assert_eq!(panel::get(&reg, "tree").unwrap().cursor_line, 2);
}

#[test]
fn given_nonexistent_panel_when_panel_set_cursor_then_error() {
    let mut reg = panel::new();
    assert!(panel_set_cursor(&mut reg, &vec![s("nope"), i(0)]).is_err());
}

#[test]
fn given_base_and_child_when_path_join_then_returns_joined_path() {
    assert_eq!(path_join_prim(&vec![s("/home"), s("user")]), Ok(Reply::Str("/home/user".to_string())));
}

#[test]
fn given_path_when_path_parent_then_returns_parent_directory() {
    assert_eq!(path_parent_prim(&vec![s("/home/user")]), Ok(Reply::Str("/home".to_string())));
}

#[test]
fn given_nonexistent_file_when_open_file_then_message_contains_error() {
    let mut st = editor_state::new(80, 24);
    let path = "/nonexistent/path/to/file.txt";
    let outcome = Err(AlfredError::FileReadError {
        path: std::path::PathBuf::from(path),
        message: "No such file or directory (os error 2)".to_string(),
    });
    assert_eq!(finish_open::<()>(&mut st, path, outcome), Ok(Reply::Nil));
    let msg = st.message.clone().expect("Message should be set with error text");
    assert!(msg.contains("nonexistent") || msg.contains("No such file") || msg.contains("error"), "got: {}", msg);
}
