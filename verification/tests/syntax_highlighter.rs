use alfred::highlighter::{
    all_languages, javascript_config, python_config, ranges_from_captures, rust_config, Capture, SyntaxHighlighter,
};
use alfred::str_map::StrMap;
use alfred::syntax::EditNotification;
use alfred::theme::ThemeColor;

/// A highlighter with the language of `filename` set and `source` parsed.
fn parsed_highlighter(filename: &str, source: &str) -> SyntaxHighlighter {
    let mut h = SyntaxHighlighter::new();
    h.set_language_for_file(filename);
    h.parse(source);
    h
}

/// Asserts that highlighting `source` gives at least one range of the capture.
fn assert_capture_present(filename: &str, source: &str, expected_capture: &str) {
    let h = parsed_highlighter(filename, source);
    let line_count = source.lines().count().max(1);
    let ranges = h.highlight_lines(source, 0, line_count);
    let matching: Vec<_> = ranges.iter().filter(|r| r.capture_name == expected_capture).collect();
    assert!(
        !matching.is_empty(),
        "Expected '{}' capture for '{}' in {:?}, got ranges: {:?}",
        expected_capture,
        source,
        filename,
        ranges
    );
}

#[test]
fn given_new_highlighter_when_created_then_has_no_language() {
    let highlighter = SyntaxHighlighter::new();
    assert!(!highlighter.has_language());
    assert!(!highlighter.has_tree());
}

#[test]
fn given_rs_file_when_set_language_then_returns_true() {
    let mut highlighter = SyntaxHighlighter::new();
    assert!(highlighter.set_language_for_file("main.rs"));
    assert_eq!(highlighter.current_language(), Some("rust"));
}

#[test]
fn given_txt_file_when_set_language_then_returns_false() {
    let mut highlighter = SyntaxHighlighter::new();
    assert!(!highlighter.set_language_for_file("readme.txt"));
    assert!(!highlighter.has_language());
}

#[test]
fn given_same_language_when_set_twice_then_does_not_reset_tree() {
    let mut highlighter = SyntaxHighlighter::new();
    highlighter.set_language_for_file("main.rs");
    highlighter.parse("fn main() {}");
    assert!(highlighter.has_tree());

    // Setting same language should not reset tree
    highlighter.set_language_for_file("lib.rs");
    assert!(highlighter.has_tree());
}

#[test]
fn given_rust_source_when_parsed_then_tree_exists() {
    let mut highlighter = SyntaxHighlighter::new();
    highlighter.set_language_for_file("main.rs");
    assert!(highlighter.parse("fn main() {}"));
    assert!(highlighter.has_tree());
}

#[test]
fn given_no_language_when_parsed_then_returns_false() {
    let mut highlighter = SyntaxHighlighter::new();
    assert!(!highlighter.parse("fn main() {}"));
}

#[test]
fn given_rust_source_when_parse_with_version_then_version_tracked() {
    let mut highlighter = SyntaxHighlighter::new();
    highlighter.set_language_for_file("main.rs");
    highlighter.parse_with_version("fn main() {}", 5);
    assert_eq!(highlighter.buffer_version(), 5);
}

#[test]
fn given_same_version_when_parse_again_then_skips_parse() {
    let mut highlighter = SyntaxHighlighter::new();
    highlighter.set_language_for_file("main.rs");
    highlighter.parse_with_version("fn main() {}", 5);

    // Parsing with same version should be a no-op
    assert!(highlighter.parse_with_version("different source", 5));
    // Tree should still exist from first parse
    assert!(highlighter.has_tree());
}

#[test]
fn given_rust_fn_when_highlight_then_fn_keyword_captured() {
    assert_capture_present("main.rs", "fn main() {}", "keyword");
}

#[test]
fn given_rust_fn_when_highlight_then_keyword_at_correct_position() {
    let h = parsed_highlighter("main.rs", "fn main() {}");
    let ranges = h.highlight_lines("fn main() {}", 0, 1);
    let fn_range = ranges.iter().find(|r| r.capture_name == "keyword" && r.start_col == 0 && r.end_col == 2);
    assert!(fn_range.is_some(), "Should have keyword range at 0..2 for 'fn'");
}

#[test]
fn given_rust_string_when_highlight_then_string_captured() {
    assert_capture_present("main.rs", "let x = \"hello\";", "string");
}

#[test]
fn given_rust_comment_when_highlight_then_comment_captured() {
    assert_capture_present("main.rs", "// this is a comment", "comment");
}

#[test]
fn given_rust_function_def_when_highlight_then_function_name_captured() {
    assert_capture_present("main.rs", "fn my_func() {}", "function");
}

#[test]
fn given_multiline_rust_when_highlight_line_range_then_only_visible_lines_returned() {
    let source = "fn main() {\n    let x = 42;\n    let y = 99;\n}";
    let h = parsed_highlighter("main.rs", source);
    let ranges = h.highlight_lines(source, 1, 2);
    assert!(ranges.iter().all(|r| r.line == 1), "All ranges should be on line 1, got: {:?}", ranges);
}

#[test]
fn given_no_tree_when_highlight_lines_then_returns_empty() {
    let highlighter = SyntaxHighlighter::new();
    let ranges = highlighter.highlight_lines("fn main() {}", 0, 1);
    assert!(ranges.is_empty());
}

#[test]
fn given_unrecognized_file_when_highlight_then_returns_empty() {
    let mut highlighter = SyntaxHighlighter::new();
    highlighter.set_language_for_file("readme.txt");
    let ranges = highlighter.highlight_lines("some text", 0, 1);
    assert!(ranges.is_empty());
}

#[test]
fn given_keyword_capture_when_resolve_theme_slot_then_returns_syntax_keyword() {
    assert_eq!(SyntaxHighlighter::resolve_theme_slot("keyword"), "syntax-keyword");
}

#[test]
fn given_function_method_when_resolve_theme_slot_then_returns_syntax_function_method() {
    assert_eq!(SyntaxHighlighter::resolve_theme_slot("function.method"), "syntax-function.method");
}

#[test]
fn given_theme_with_exact_slot_when_resolve_color_then_returns_color() {
    let mut theme = StrMap::new();
    theme.insert("syntax-keyword".to_string(), ThemeColor::Rgb(198, 120, 221));

    let color = SyntaxHighlighter::resolve_color("keyword", &theme);
    assert_eq!(color, Some(ThemeColor::Rgb(198, 120, 221)));
}

#[test]
fn given_theme_with_parent_slot_when_resolve_sub_capture_then_falls_back() {
    let mut theme = StrMap::new();
    theme.insert("syntax-function".to_string(), ThemeColor::Rgb(137, 180, 250));

    // "function.method" should fall back to "syntax-function"
    let color = SyntaxHighlighter::resolve_color("function.method", &theme);
    assert_eq!(color, Some(ThemeColor::Rgb(137, 180, 250)));
}

#[test]
fn given_theme_without_slot_when_resolve_color_then_returns_none() {
    let theme = StrMap::new();
    let color = SyntaxHighlighter::resolve_color("keyword", &theme);
    assert_eq!(color, None);
}

#[test]
fn given_parsed_tree_when_edit_and_reparse_then_tree_updated() {
    let mut highlighter = SyntaxHighlighter::new();
    highlighter.set_language_for_file("main.rs");

    let source = "fn main() {}";
    highlighter.parse(source);
    assert!(highlighter.has_tree());

    // Simulate inserting "let x = 1;\n" after "fn main() {\n"
    let notification = EditNotification {
        start_byte: 12,
        old_end_byte: 12,
        new_end_byte: 24,
        start_position: (0, 12),
        old_end_position: (0, 12),
        new_end_position: (1, 0),
    };
    highlighter.edit(&notification);

    let new_source = "fn main() {\nlet x = 1;\n}";
    assert!(highlighter.parse(new_source));
    assert!(highlighter.has_tree());
}

#[test]
fn given_parsed_rust_when_incremental_update_then_highlights_update() {
    let mut highlighter = SyntaxHighlighter::new();
    highlighter.set_language_for_file("main.rs");

    let old_source = "fn main() {}";
    highlighter.parse(old_source);

    let new_source = "fn main() {\n    let x = 42;\n}";
    assert!(highlighter.incremental_update(old_source, new_source));

    // The new source should highlight 'let' as keyword on line 1
    let ranges = highlighter.highlight_lines(new_source, 1, 2);
    let keywords: Vec<_> = ranges.iter().filter(|r| r.capture_name == "keyword").collect();
    assert!(!keywords.is_empty(), "After incremental update, 'let' should be highlighted as keyword");
}

#[test]
fn given_parsed_rust_when_text_deleted_and_updated_then_highlights_correct() {
    let mut highlighter = SyntaxHighlighter::new();
    highlighter.set_language_for_file("main.rs");

    let old_source = "fn main() {\n    let x = 42;\n}";
    highlighter.parse(old_source);

    let new_source = "fn main() {}";
    assert!(highlighter.incremental_update(old_source, new_source));

    let ranges = highlighter.highlight_lines(new_source, 0, 1);
    let keywords: Vec<_> = ranges.iter().filter(|r| r.capture_name == "keyword").collect();
    assert!(!keywords.is_empty(), "fn should still be highlighted");
}

#[test]
fn given_py_file_when_set_language_then_returns_true() {
    let mut highlighter = SyntaxHighlighter::new();
    assert!(highlighter.set_language_for_file("app.py"));
    assert_eq!(highlighter.current_language(), Some("python"));
}

#[test]
fn given_python_def_when_highlight_then_def_keyword_captured() {
    assert_capture_present("app.py", "def hello():\n    pass", "keyword");
}

#[test]
fn given_python_string_when_highlight_then_string_captured() {
    assert_capture_present("app.py", "x = \"hello world\"", "string");
}

#[test]
fn given_python_comment_when_highlight_then_comment_captured() {
    assert_capture_present("app.py", "# this is a comment", "comment");
}

#[test]
fn given_python_number_when_highlight_then_number_captured() {
    assert_capture_present("app.py", "x = 42", "number");
}

#[test]
fn given_js_file_when_set_language_then_returns_true() {
    let mut highlighter = SyntaxHighlighter::new();
    assert!(highlighter.set_language_for_file("index.js"));
    assert_eq!(highlighter.current_language(), Some("javascript"));
}

#[test]
fn given_js_function_when_highlight_then_function_keyword_captured() {
    assert_capture_present("index.js", "function hello() {}", "keyword");
}

#[test]
fn given_js_string_when_highlight_then_string_captured() {
    assert_capture_present("index.js", "const x = \"hello\";", "string");
}

#[test]
fn given_js_comment_when_highlight_then_comment_captured() {
    assert_capture_present("index.js", "// this is a comment", "comment");
}

#[test]
fn given_js_number_when_highlight_then_number_captured() {
    assert_capture_present("index.js", "let x = 42;", "number");
}

#[test]
fn given_js_const_keyword_when_highlight_then_keyword_captured() {
    assert_capture_present("index.js", "const x = 1;", "keyword");
}

#[test]
fn rust_config_has_valid_grammar() {
    let config = rust_config();
    assert_eq!(config.id, "rust");
    assert!(config.extensions.contains(&".rs"));
    assert!(!config.highlight_query.is_empty());
}

#[test]
fn python_config_has_valid_grammar() {
    let config = python_config();
    assert_eq!(config.id, "python");
    assert!(config.extensions.contains(&".py"));
    assert!(!config.highlight_query.is_empty());
}

#[test]
fn javascript_config_has_valid_grammar() {
    let config = javascript_config();
    assert_eq!(config.id, "javascript");
    assert!(config.extensions.contains(&".js"));
    assert!(!config.highlight_query.is_empty());
}

#[test]
fn all_languages_lists_rust_python_javascript_in_order() {
    let ids: Vec<&str> = all_languages().iter().map(|c| c.id).collect();
    assert_eq!(ids, vec!["rust", "python", "javascript"]);
}

#[test]
fn switching_language_resets_tree_and_version() {
    let mut h = SyntaxHighlighter::new();
    h.set_language_for_file("main.rs");
    h.parse_with_version("fn main() {}", 3);
    assert!(h.has_tree());
    assert!(h.set_language_for_file("app.py"));
    assert!(!h.has_tree());
    assert_eq!(h.buffer_version(), 0);
    assert_eq!(h.current_language(), Some("python"));
}

#[test]
fn unknown_file_clears_language_and_tree() {
    let mut h = parsed_highlighter("main.rs", "fn main() {}");
    assert!(!h.set_language_for_file("notes.txt"));
    assert!(!h.has_language());
    assert!(!h.has_tree());
    assert_eq!(h.current_language(), None);
}

#[test]
fn captures_are_split_windowed_sorted_and_deduplicated() {
    let source = "let a = 1;\n/* two\nlines */ x";
    let caps = vec![
        Capture { name: "comment".to_string(), start: (1, 0), end: (2, 8) },
        Capture { name: "keyword".to_string(), start: (0, 0), end: (0, 3) },
        Capture { name: "variable".to_string(), start: (2, 0), end: (2, 4) },
        Capture { name: "variable".to_string(), start: (2, 9), end: (2, 10) },
    ];
    let ranges = ranges_from_captures(source, &caps, 1, 3);
    let got: Vec<(usize, usize, usize, &str)> =
        ranges.iter().map(|r| (r.line, r.start_col, r.end_col, r.capture_name.as_str())).collect();
    assert_eq!(got, vec![(1, 0, 6, "comment"), (2, 0, 8, "comment"), (2, 9, 10, "variable")]);
}
