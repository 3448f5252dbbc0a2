use alfred::buffer::Buffer;
use alfred::cursor::{
    ensure_within_bounds, move_down, move_left, move_right, move_to_document_end, move_to_document_start,
    move_to_first_non_blank, move_to_line_end, move_to_line_start, move_up, move_word_backward, move_word_end,
    move_word_forward, new, Cursor,
};

#[test]
fn move_down_boundary_cases() {
    // (buffer, start_cursor, expected_cursor, label)
    let cases: Vec<(&str, Cursor, Cursor, &str)> = vec![
        (
            "aaa\nbbb\nccc",
            new(0, 0),
            new(1, 0),
            "first line moves to second",
        ),
        (
            "aaa\nbbb",
            new(1, 0),
            new(1, 0),
            "last line stays on last line",
        ),
        (
            "abcdef\nxy",
            new(0, 5),
            new(1, 2),
            "clamps column to shorter line",
        ),
    ];

    for (buffer_text, start, expected, label) in &cases {
        let buf = Buffer::from_string(buffer_text);
        let result = move_down(*start, &buf);
        assert_eq!(result, *expected, "move_down: {}", label);
    }
}

#[test]
fn move_up_boundary_cases() {
    // (buffer, start_cursor, expected_cursor, label)
    let cases: Vec<(&str, Cursor, Cursor, &str)> = vec![
        (
            "aaa\nbbb",
            new(1, 0),
            new(0, 0),
            "second line moves to first",
        ),
        (
            "aaa\nbbb",
            new(0, 2),
            new(0, 2),
            "first line stays on first line",
        ),
        (
            "ab\ncdefgh",
            new(1, 5),
            new(0, 2),
            "clamps column to shorter line",
        ),
    ];

    for (buffer_text, start, expected, label) in &cases {
        let buf = Buffer::from_string(buffer_text);
        let result = move_up(*start, &buf);
        assert_eq!(result, *expected, "move_up: {}", label);
    }
}

#[test]
fn move_right_boundary_cases() {
    // (buffer, start_cursor, expected_cursor, label)
    let cases: Vec<(&str, Cursor, Cursor, &str)> = vec![
        ("abc", new(0, 0), new(0, 1), "within line increments column"),
        (
            "ab\ncd",
            new(0, 2),
            new(1, 0),
            "end of line wraps to next line",
        ),
        (
            "ab\ncd",
            new(1, 2),
            new(1, 2),
            "end of last line stays clamped",
        ),
    ];

    for (buffer_text, start, expected, label) in &cases {
        let buf = Buffer::from_string(buffer_text);
        let result = move_right(*start, &buf);
        assert_eq!(result, *expected, "move_right: {}", label);
    }
}

#[test]
fn move_left_boundary_cases() {
    // (buffer, start_cursor, expected_cursor, label)
    let cases: Vec<(&str, Cursor, Cursor, &str)> = vec![
        ("abc", new(0, 2), new(0, 1), "within line decrements column"),
        (
            "ab\ncd",
            new(1, 0),
            new(0, 2),
            "start of line wraps to previous line end",
        ),
        (
            "ab\ncd",
            new(0, 0),
            new(0, 0),
            "start of first line stays clamped",
        ),
    ];

    for (buffer_text, start, expected, label) in &cases {
        let buf = Buffer::from_string(buffer_text);
        let result = move_left(*start, &buf);
        assert_eq!(result, *expected, "move_left: {}", label);
    }
}

#[test]
fn ensure_within_bounds_cases() {
    // (buffer, start_cursor, expected_cursor, label)
    let cases: Vec<(&str, Cursor, Cursor, &str)> = vec![
        (
            "abc\ndef",
            new(10, 0),
            new(1, 0),
            "clamps line beyond buffer",
        ),
        (
            "abc\ndef",
            new(0, 50),
            new(0, 3),
            "clamps column beyond line length",
        ),
        (
            "abc\ndef",
            new(1, 2),
            new(1, 2),
            "leaves valid cursor unchanged",
        ),
    ];

    for (buffer_text, start, expected, label) in &cases {
        let buf = Buffer::from_string(buffer_text);
        let result = ensure_within_bounds(*start, &buf);
        assert_eq!(result, *expected, "ensure_within_bounds: {}", label);
    }
}

#[test]
fn move_to_line_start_cases() {
    // (buffer, start_cursor, expected_cursor, label)
    let cases: Vec<(&str, Cursor, Cursor, &str)> = vec![
        ("hello world", new(0, 5), new(0, 0), "sets column to zero"),
        ("hello", new(0, 0), new(0, 0), "already at zero stays"),
    ];

    for (buffer_text, start, expected, label) in &cases {
        let buf = Buffer::from_string(buffer_text);
        let result = move_to_line_start(*start, &buf);
        assert_eq!(result, *expected, "move_to_line_start: {}", label);
    }
}

#[test]
fn move_to_line_end_cases() {
    // (buffer, start_cursor, expected_cursor, label)
    let cases: Vec<(&str, Cursor, Cursor, &str)> = vec![
        ("hello", new(0, 0), new(0, 4), "moves to last character"),
        ("", new(0, 0), new(0, 0), "empty line stays at zero"),
        (
            "abc\ndefgh",
            new(1, 0),
            new(1, 4),
            "second line moves to last char",
        ),
    ];

    for (buffer_text, start, expected, label) in &cases {
        let buf = Buffer::from_string(buffer_text);
        let result = move_to_line_end(*start, &buf);
        assert_eq!(result, *expected, "move_to_line_end: {}", label);
    }
}

#[test]
fn move_to_first_non_blank_cases() {
    // (buffer, start_cursor, expected_cursor, label)
    let cases: Vec<(&str, Cursor, Cursor, &str)> = vec![
        ("   hello", new(0, 0), new(0, 3), "skips leading spaces"),
        ("hello", new(0, 5), new(0, 0), "no leading spaces"),
        ("\t  world", new(0, 0), new(0, 3), "tabs and spaces"),
    ];

    for (buffer_text, start, expected, label) in &cases {
        let buf = Buffer::from_string(buffer_text);
        let result = move_to_first_non_blank(*start, &buf);
        assert_eq!(result, *expected, "move_to_first_non_blank: {}", label);
    }
}

#[test]
fn move_to_document_start_cases() {
    // (buffer, start_cursor, expected_cursor, label)
    let cases: Vec<(&str, Cursor, Cursor, &str)> = vec![
        (
            "aaa\nbbb\nccc",
            new(2, 2),
            new(0, 0),
            "from middle of buffer",
        ),
        ("aaa\nbbb", new(0, 0), new(0, 0), "already at start"),
    ];

    for (buffer_text, start, expected, label) in &cases {
        let buf = Buffer::from_string(buffer_text);
        let result = move_to_document_start(*start, &buf);
        assert_eq!(result, *expected, "move_to_document_start: {}", label);
    }
}

#[test]
fn move_to_document_end_cases() {
    // (buffer, start_cursor, expected_cursor, label)
    let cases: Vec<(&str, Cursor, Cursor, &str)> = vec![
        ("aaa\nbbb\nccc", new(0, 0), new(2, 0), "from first line"),
        ("aaa\nbbb", new(1, 2), new(1, 0), "already at last line"),
    ];

    for (buffer_text, start, expected, label) in &cases {
        let buf = Buffer::from_string(buffer_text);
        let result = move_to_document_end(*start, &buf);
        assert_eq!(result, *expected, "move_to_document_end: {}", label);
    }
}

#[test]
fn move_word_forward_across_multiple_words() {
    let buf = Buffer::from_string("hello world foo");
    // Start at 'h'
    let c1 = move_word_forward(new(0, 0), &buf);
    assert_eq!(c1, new(0, 6)); // 'w' of "world"
    let c2 = move_word_forward(c1, &buf);
    assert_eq!(c2, new(0, 12)); // 'f' of "foo"
}

#[test]
fn move_word_forward_skips_punctuation_as_separate_word() {
    let buf = Buffer::from_string("foo.bar");
    let c1 = move_word_forward(new(0, 0), &buf);
    // After "foo", '.' is different class, so word start is at '.'
    assert_eq!(c1, new(0, 3)); // '.'
    let c2 = move_word_forward(c1, &buf);
    assert_eq!(c2, new(0, 4)); // 'b' of "bar"
}

#[test]
fn move_word_forward_single_step_cases() {
    // (buffer, start_cursor, expected_cursor, label)
    let cases: Vec<(&str, Cursor, Cursor, &str)> = vec![
        ("end\nstart", new(0, 0), new(1, 0), "across lines"),
        ("last", new(0, 3), new(0, 3), "at end of buffer stays"),
    ];

    for (buffer_text, start, expected, label) in &cases {
        let buf = Buffer::from_string(buffer_text);
        let result = move_word_forward(*start, &buf);
        assert_eq!(result, *expected, "move_word_forward: {}", label);
    }
}

#[test]
fn move_word_backward_cases() {
    // (buffer, start_cursor, expected_cursor, label)
    let cases: Vec<(&str, Cursor, Cursor, &str)> = vec![
        (
            "hello world",
            new(0, 6),
            new(0, 0),
            "to previous word start",
        ),
        ("first\nsecond", new(1, 0), new(0, 0), "across lines"),
        ("hello", new(0, 0), new(0, 0), "at start of buffer stays"),
        ("hello world", new(0, 8), new(0, 6), "from middle of word"),
    ];

    for (buffer_text, start, expected, label) in &cases {
        let buf = Buffer::from_string(buffer_text);
        let result = move_word_backward(*start, &buf);
        assert_eq!(result, *expected, "move_word_backward: {}", label);
    }
}

#[test]
fn move_word_end_cases() {
    // (buffer, start_cursor, expected_cursor, label)
    let cases: Vec<(&str, Cursor, Cursor, &str)> = vec![
        (
            "hello world",
            new(0, 0),
            new(0, 4),
            "to end of current word",
        ),
        ("hello world", new(0, 4), new(0, 10), "to end of next word"),
        ("hi\nthere", new(0, 1), new(1, 4), "across lines"),
        ("end", new(0, 2), new(0, 2), "at end of buffer stays"),
    ];

    for (buffer_text, start, expected, label) in &cases {
        let buf = Buffer::from_string(buffer_text);
        let result = move_word_end(*start, &buf);
        assert_eq!(result, *expected, "move_word_end: {}", label);
    }
}
