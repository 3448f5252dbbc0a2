use alfred::syntax::{byte_offset_to_point, compute_edit_notification, deduplicate_ranges, line_to_byte_offset, HighlightRange};

#[test]
fn given_multiline_text_when_byte_offset_line_0_then_returns_0() {
    assert_eq!(line_to_byte_offset("hello\nworld", 0), 0);
}

#[test]
fn given_multiline_text_when_byte_offset_line_1_then_returns_6() {
    assert_eq!(line_to_byte_offset("hello\nworld", 1), 6);
}

#[test]
fn given_multiline_text_when_byte_offset_beyond_last_line_then_returns_len() {
    assert_eq!(line_to_byte_offset("hello\nworld", 5), 11);
}

#[test]
fn given_overlapping_ranges_when_deduplicate_then_keeps_first() {
    let ranges = vec![
        HighlightRange {
            line: 0,
            start_col: 0,
            end_col: 5,
            capture_name: "keyword".to_string(),
        },
        HighlightRange {
            line: 0,
            start_col: 0,
            end_col: 5,
            capture_name: "function".to_string(),
        },
    ];

    let result = deduplicate_ranges(ranges);
    assert_eq!(result.len(), 1);
    assert_eq!(result[0].capture_name, "keyword");
}

#[test]
fn given_non_overlapping_ranges_when_deduplicate_then_keeps_all() {
    let ranges = vec![
        HighlightRange {
            line: 0,
            start_col: 0,
            end_col: 2,
            capture_name: "keyword".to_string(),
        },
        HighlightRange {
            line: 0,
            start_col: 3,
            end_col: 7,
            capture_name: "function".to_string(),
        },
    ];

    let result = deduplicate_ranges(ranges);
    assert_eq!(result.len(), 2);
}

#[test]
fn given_identical_sources_when_compute_edit_then_returns_none() {
    let result = compute_edit_notification("fn main() {}", "fn main() {}");
    assert!(result.is_none());
}

#[test]
fn given_insertion_when_compute_edit_then_returns_correct_offsets() {
    let old = "fn main() {}";
    let new = "fn main() { let x = 1; }";
    let edit = compute_edit_notification(old, new).unwrap();

    assert_eq!(edit.start_byte, 11); // after "fn main() {"
    assert_eq!(edit.old_end_byte, 11); // nothing removed
    assert!(edit.new_end_byte > edit.start_byte); // text inserted
}

#[test]
fn given_deletion_when_compute_edit_then_returns_correct_offsets() {
    let old = "fn main() { let x = 1; }";
    let new = "fn main() {}";
    let edit = compute_edit_notification(old, new).unwrap();

    assert_eq!(edit.start_byte, 11);
    assert!(edit.old_end_byte > edit.start_byte); // text removed
}

#[test]
fn given_multiline_edit_when_compute_edit_then_positions_correct() {
    let old = "fn main() {\n}";
    let new = "fn main() {\n    let x = 1;\n}";
    let edit = compute_edit_notification(old, new).unwrap();

    // Start should be at the end of "fn main() {\n"
    assert_eq!(edit.start_position.0, 1); // row 1
}

#[test]
fn given_start_of_text_when_byte_to_point_then_returns_0_0() {
    assert_eq!(byte_offset_to_point("hello\nworld", 0), (0, 0));
}

#[test]
fn given_middle_of_first_line_when_byte_to_point_then_row_0() {
    assert_eq!(byte_offset_to_point("hello\nworld", 3), (0, 3));
}

#[test]
fn given_start_of_second_line_when_byte_to_point_then_row_1_col_0() {
    assert_eq!(byte_offset_to_point("hello\nworld", 6), (1, 0));
}

#[test]
fn given_middle_of_second_line_when_byte_to_point_then_row_1() {
    assert_eq!(byte_offset_to_point("hello\nworld", 8), (1, 2));
}
