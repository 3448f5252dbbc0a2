use alfred::buffer::Buffer;
use alfred::cursor::{self, Cursor};
use alfred::text_object::{around_parens, around_quotes, around_word, inner_parens, inner_quotes, inner_word};

#[test]
fn inner_word_cases() {
    let cases: Vec<(&str, Cursor, Option<(Cursor, Cursor)>, &str)> = vec![
        (
            "hello world",
            cursor::new(0, 7),
            Some((cursor::new(0, 6), cursor::new(0, 11))),
            "cursor on 'world' selects 'world'",
        ),
        (
            "hello world",
            cursor::new(0, 0),
            Some((cursor::new(0, 0), cursor::new(0, 5))),
            "cursor on 'hello' selects 'hello'",
        ),
        (
            "hello world",
            cursor::new(0, 5),
            Some((cursor::new(0, 5), cursor::new(0, 6))),
            "cursor on space selects the space",
        ),
        (
            "foo.bar",
            cursor::new(0, 0),
            Some((cursor::new(0, 0), cursor::new(0, 3))),
            "cursor on 'foo' in foo.bar selects 'foo'",
        ),
        ("", cursor::new(0, 0), None, "empty buffer returns None"),
    ];

    for (buffer_text, start, expected, label) in &cases {
        let buf = Buffer::from_string(buffer_text);
        let result = inner_word(*start, &buf);
        assert_eq!(result, *expected, "inner_word: {}", label);
    }
}

#[test]
fn around_word_cases() {
    let cases: Vec<(&str, Cursor, Option<(Cursor, Cursor)>, &str)> = vec![
        (
            "hello world",
            cursor::new(0, 0),
            Some((cursor::new(0, 0), cursor::new(0, 6))),
            "cursor on 'hello' selects 'hello ' (word + trailing space)",
        ),
        (
            "hello world",
            cursor::new(0, 6),
            Some((cursor::new(0, 5), cursor::new(0, 11))),
            "cursor on 'world' selects ' world' (leading space + word, no trailing)",
        ),
        (
            "one",
            cursor::new(0, 0),
            Some((cursor::new(0, 0), cursor::new(0, 3))),
            "single word, no surrounding spaces",
        ),
    ];

    for (buffer_text, start, expected, label) in &cases {
        let buf = Buffer::from_string(buffer_text);
        let result = around_word(*start, &buf);
        assert_eq!(result, *expected, "around_word: {}", label);
    }
}

#[test]
fn inner_quotes_cases() {
    let cases: Vec<(&str, Cursor, char, Option<(Cursor, Cursor)>, &str)> = vec![
        (
            r#"say "hello" done"#,
            cursor::new(0, 6),
            '"',
            Some((cursor::new(0, 5), cursor::new(0, 10))),
            "cursor inside double quotes selects content between quotes",
        ),
        (
            r#"say "hello" done"#,
            cursor::new(0, 4),
            '"',
            Some((cursor::new(0, 5), cursor::new(0, 10))),
            "cursor on opening quote selects content between quotes",
        ),
        (
            "no quotes here",
            cursor::new(0, 5),
            '"',
            None,
            "no quotes returns None",
        ),
        (
            r#""hello""#,
            cursor::new(0, 3),
            '"',
            Some((cursor::new(0, 1), cursor::new(0, 6))),
            "cursor inside quotes at start of line",
        ),
    ];

    for (buffer_text, start, quote, expected, label) in &cases {
        let buf = Buffer::from_string(buffer_text);
        let result = inner_quotes(*start, &buf, *quote);
        assert_eq!(result, *expected, "inner_quotes: {}", label);
    }
}

#[test]
fn around_quotes_cases() {
    let cases: Vec<(&str, Cursor, char, Option<(Cursor, Cursor)>, &str)> = vec![(
        r#"say "hello" done"#,
        cursor::new(0, 6),
        '"',
        Some((cursor::new(0, 4), cursor::new(0, 11))),
        "around quotes includes the quote characters",
    )];

    for (buffer_text, start, quote, expected, label) in &cases {
        let buf = Buffer::from_string(buffer_text);
        let result = around_quotes(*start, &buf, *quote);
        assert_eq!(result, *expected, "around_quotes: {}", label);
    }
}

#[test]
fn inner_parens_cases() {
    let cases: Vec<(&str, Cursor, char, char, Option<(Cursor, Cursor)>, &str)> = vec![
        (
            "fn(arg1, arg2)",
            cursor::new(0, 5),
            '(',
            ')',
            Some((cursor::new(0, 3), cursor::new(0, 13))),
            "cursor inside parens selects content between parens",
        ),
        (
            "fn()",
            cursor::new(0, 2),
            '(',
            ')',
            Some((cursor::new(0, 3), cursor::new(0, 3))),
            "cursor on opening paren of empty parens returns empty range",
        ),
        (
            "no parens",
            cursor::new(0, 3),
            '(',
            ')',
            None,
            "no parens returns None",
        ),
        (
            "a(b(c)d)e",
            cursor::new(0, 4),
            '(',
            ')',
            Some((cursor::new(0, 4), cursor::new(0, 5))),
            "nested parens: cursor inside inner pair selects inner content",
        ),
    ];

    for (buffer_text, start, open, close, expected, label) in &cases {
        let buf = Buffer::from_string(buffer_text);
        let result = inner_parens(*start, &buf, *open, *close);
        assert_eq!(result, *expected, "inner_parens: {}", label);
    }
}

#[test]
fn around_parens_cases() {
    let cases: Vec<(&str, Cursor, char, char, Option<(Cursor, Cursor)>, &str)> = vec![
        (
            "fn(arg1, arg2)",
            cursor::new(0, 5),
            '(',
            ')',
            Some((cursor::new(0, 2), cursor::new(0, 14))),
            "around parens includes the parentheses",
        ),
        (
            "a[b, c]d",
            cursor::new(0, 3),
            '[',
            ']',
            Some((cursor::new(0, 1), cursor::new(0, 7))),
            "around brackets includes the brackets",
        ),
    ];

    for (buffer_text, start, open, close, expected, label) in &cases {
        let buf = Buffer::from_string(buffer_text);
        let result = around_parens(*start, &buf, *open, *close);
        assert_eq!(result, *expected, "around_parens: {}", label);
    }
}

#[test]
fn inner_parens_multiline() {
    let buf = Buffer::from_string("if (\n  true\n)");
    let result = inner_parens(cursor::new(1, 2), &buf, '(', ')');
    assert!(result.is_some(), "should find parens across lines");
    let (start, end) = result.unwrap();
    // The opening paren is at (0, 3), so inner starts at (0, 4) which is '\n'
    // The closing paren is at (2, 0), so inner ends at (2, 0)
    assert_eq!(
        start,
        cursor::new(0, 4),
        "inner start is after opening paren"
    );
    assert_eq!(end, cursor::new(2, 0), "inner end is at closing paren");
}
