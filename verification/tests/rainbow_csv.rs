use alfred::buffer::Buffer;
use alfred::editor_state;
use alfred::rainbow_csv::{colorize_buffer, compute_line_segments, palette};


// -----------------------------------------------------------------------
// Acceptance test: colorize a CSV buffer through EditorState
// Test Budget: 5 behaviors x 2 = 10 max
// -----------------------------------------------------------------------

#[test]
fn given_csv_buffer_when_colorize_then_each_line_has_colored_segments_per_column() {
    // Given: an editor state with a 2-line CSV buffer
    let mut state = editor_state::new(80, 24);
    state.buffer = Buffer::from_string("name,age,city\nalice,30,london");

    // When: the buffer is colorized
    colorize_buffer(&mut state);

    // Then: line 0 has 3 segments (name, age, city)
    let line0_styles = state
        .line_styles
        .get(&0)
        .expect("line 0 should have styles");
    assert_eq!(line0_styles.len(), 3, "3 columns = 3 segments");

    // And: the segments cover the correct column ranges
    assert_eq!(line0_styles[0].0, 0); // "name" starts at 0
    assert_eq!(line0_styles[0].1, 4); // "name" ends at 4
    assert_eq!(line0_styles[1].0, 5); // "age" starts at 5
    assert_eq!(line0_styles[1].1, 8); // "age" ends at 8
    assert_eq!(line0_styles[2].0, 9); // "city" starts at 9
    assert_eq!(line0_styles[2].1, 13); // "city" ends at 13

    // And: each segment has a different color (from palette)
    assert_ne!(line0_styles[0].2, line0_styles[1].2);
    assert_ne!(line0_styles[1].2, line0_styles[2].2);

    // And: line 1 also has 3 segments
    let line1_styles = state
        .line_styles
        .get(&1)
        .expect("line 1 should have styles");
    assert_eq!(line1_styles.len(), 3);

    // And: column 0 on line 1 uses the same color as column 0 on line 0
    assert_eq!(line0_styles[0].2, line1_styles[0].2);
}

// -----------------------------------------------------------------------
// Unit tests: compute_line_segments pure function
// -----------------------------------------------------------------------

#[test]
fn given_empty_line_when_compute_segments_then_returns_empty() {
    let segments = compute_line_segments("", ',');
    assert!(segments.is_empty());
}

#[test]
fn given_line_without_delimiter_when_compute_segments_then_single_segment_covering_entire_line()
{
    let segments = compute_line_segments("hello", ',');
    assert_eq!(segments.len(), 1);
    assert_eq!(segments[0].0, 0);
    assert_eq!(segments[0].1, 5);
    assert_eq!(segments[0].2, palette(0));
}

#[test]
fn given_csv_line_when_compute_segments_then_each_column_gets_rotating_palette_color() {
    let segments = compute_line_segments("a,bb,ccc", ',');
    assert_eq!(segments.len(), 3);
    // Column boundaries
    assert_eq!((segments[0].0, segments[0].1), (0, 1)); // "a"
    assert_eq!((segments[1].0, segments[1].1), (2, 4)); // "bb"
    assert_eq!((segments[2].0, segments[2].1), (5, 8)); // "ccc"
                                                        // Colors rotate through palette
    assert_eq!(segments[0].2, palette(0));
    assert_eq!(segments[1].2, palette(1));
    assert_eq!(segments[2].2, palette(2));
}

#[test]
fn given_colorized_buffer_when_clear_line_styles_then_styles_are_empty() {
    let mut state = editor_state::new(80, 24);
    state.buffer = Buffer::from_string("a,b,c");
    colorize_buffer(&mut state);
    assert!(!state.line_styles.is_empty());

    editor_state::clear_line_styles(&mut state);
    assert!(state.line_styles.is_empty());
}

#[test]
fn given_more_columns_than_palette_size_when_compute_segments_then_colors_cycle() {
    // 9 columns should cycle back to palette(0) for the 9th
    let line = "a,b,c,d,e,f,g,h,i";
    let segments = compute_line_segments(line, ',');
    assert_eq!(segments.len(), 9);
    assert_eq!(segments[8].2, palette(0)); // 9th column wraps to index 0
}

