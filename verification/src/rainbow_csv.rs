//! Rainbow CSV: per-line color segments for CSV columns, each column taking
//! the next color of a rotating palette.
use crate::lines::{byte_len, lemma_byte_len_char, lemma_byte_len_concat};
use crate::plugin::find_char;
use crate::text::{chars_to_string, str_to_chars};
use crate::buffer;
use crate::cursor::raw_line;
use crate::editor_state::{self, styles_view, EditorState, LineStyle};
use crate::lines::{line_count, trim_newlines};
use crate::theme::ThemeColor;
use vstd::prelude::*;

verus! {

/// The palette color for column `k`: eight pastel colors in turn.
pub open spec fn palette_color(k: int) -> ThemeColor {
    let i = k % 8;
    if i == 0 {
        ThemeColor::Rgb(255, 121, 121)
    } else if i == 1 {
        ThemeColor::Rgb(253, 203, 110)
    } else if i == 2 {
        ThemeColor::Rgb(85, 239, 196)
    } else if i == 3 {
        ThemeColor::Rgb(116, 185, 255)
    } else if i == 4 {
        ThemeColor::Rgb(162, 155, 254)
    } else if i == 5 {
        ThemeColor::Rgb(255, 159, 243)
    } else if i == 6 {
        ThemeColor::Rgb(0, 206, 209)
    } else {
        ThemeColor::Rgb(255, 185, 118)
    }
}

/// The palette color of column `k`.
pub fn palette(k: usize) -> (c: ThemeColor)
    ensures
        c == palette_color(k as int),
{
    let i = k % 8;
    if i == 0 {
        ThemeColor::Rgb(255, 121, 121)
    } else if i == 1 {
        ThemeColor::Rgb(253, 203, 110)
    } else if i == 2 {
        ThemeColor::Rgb(85, 239, 196)
    } else if i == 3 {
        ThemeColor::Rgb(116, 185, 255)
    } else if i == 4 {
        ThemeColor::Rgb(162, 155, 254)
    } else if i == 5 {
        ThemeColor::Rgb(255, 159, 243)
    } else if i == 6 {
        ThemeColor::Rgb(0, 206, 209)
    } else {
        ThemeColor::Rgb(255, 185, 118)
    }
}

/// The fields of `s` between occurrences of `d` (as `str::split` yields them).
pub open spec fn split_at_char(s: Seq<char>, d: char) -> Seq<Seq<char>>
    decreases s.len(),
{
    match find_char(s, d, 0) {
        Some(p) => {
            proof {
                crate::plugin::lemma_find_char_bounds(s, d, 0);
            }
            seq![s.subrange(0, p)] + split_at_char(s.subrange(p + 1, s.len() as int), d)
        },
        None => seq![s],
    }
}

/// The segments of the fields `fs` of a line, the first starting at byte `pos`
/// and taking palette color `k`: each covers its field's bytes, and the next
/// starts one byte after it.
pub open spec fn segments_from(fs: Seq<Seq<char>>, pos: int, k: int) -> Seq<(int, int, ThemeColor)>
    decreases fs.len(),
{
    if fs.len() == 0 {
        Seq::empty()
    } else {
        let end = pos + byte_len(fs[0]);
        seq![(pos, end, palette_color(k))] + segments_from(fs.drop_first(), end + 1, k + 1)
    }
}

/// The column segments of a CSV line: none for an empty line.
pub open spec fn line_segments(line: Seq<char>, d: char) -> Seq<(int, int, ThemeColor)> {
    if line.len() == 0 {
        Seq::empty()
    } else {
        segments_from(split_at_char(line, d), 0, 0)
    }
}

/// The segments as integers.
pub open spec fn segment_ints(v: Seq<(usize, usize, ThemeColor)>) -> Seq<(int, int, ThemeColor)> {
    v.map_values(|t: (usize, usize, ThemeColor)| (t.0 as int, t.1 as int, t.2))
}

proof fn lemma_segments_append(fs: Seq<Seq<char>>, f: Seq<char>, pos: int, k: int)
    ensures
        segments_from(fs.push(f), pos, k) == segments_from(fs, pos, k) + segments_from(
            seq![f],
            pos + fields_span(fs),
            k + fs.len(),
        ),
    decreases fs.len(),
{
    if fs.len() == 0 {
        assert(fs.push(f) =~= seq![f]);
    } else {
        assert(fs.push(f).drop_first() =~= fs.drop_first().push(f));
        lemma_segments_append(fs.drop_first(), f, pos + byte_len(fs[0]) + 1, k + 1);
    }
}

/// The bytes taken by the fields `fs` and one delimiter after each.
pub open spec fn fields_span(fs: Seq<Seq<char>>) -> int
    decreases fs.len(),
{
    if fs.len() == 0 {
        0
    } else {
        byte_len(fs[0]) + 1 + fields_span(fs.drop_first())
    }
}

proof fn lemma_fields_span_push(fs: Seq<Seq<char>>, f: Seq<char>)
    ensures
        fields_span(fs.push(f)) == fields_span(fs) + byte_len(f) + 1,
    decreases fs.len(),
{
    assert(fs.push(f)[0] == (if fs.len() == 0 { f } else { fs[0] }));
    if fs.len() == 0 {
        assert(fs.push(f).drop_first() =~= Seq::<Seq<char>>::empty());
        assert(fields_span(Seq::<Seq<char>>::empty()) == 0);
    } else {
        assert(fs.push(f).drop_first() =~= fs.drop_first().push(f));
        lemma_fields_span_push(fs.drop_first(), f);
    }
}

/// Computes the column segments of one CSV line: the line is split at each
/// `delimiter`, and field `k` gets (start byte, end byte, palette color `k`),
/// the next field starting one byte after the previous one ends. Empty lines
/// have no segments.
pub fn compute_line_segments(line: &str, delimiter: char) -> (r: Vec<(usize, usize, ThemeColor)>)
    requires
        byte_len(line@) + 1 < usize::MAX,
    ensures
        segment_ints(r@) == line_segments(line@, delimiter),
{
    let mut segments: Vec<(usize, usize, ThemeColor)> = Vec::new();
    if line.is_empty() {
        assert(segment_ints(segments@) =~= Seq::<(int, int, ThemeColor)>::empty());
        return segments;
    }
    let chars = str_to_chars(line);
    let ghost all = chars@;
    let n = chars.len();
    let mut pos: usize = 0;
    let mut start: usize = 0;
    let mut i: usize = 0;
    let ghost mut done: Seq<Seq<char>> = Seq::empty();
    assert(all.subrange(0, n as int) =~= all);
    assert(all.subrange(0, 0) =~= Seq::<char>::empty());
    assert(vstd::utf8::encode_utf8(Seq::<char>::empty()) =~= Seq::<u8>::empty());
    assert(segment_ints(segments@) =~= Seq::<(int, int, ThemeColor)>::empty());
    while i < n
        invariant
            all == chars@,
            n == all.len(),
            start <= i <= n,
            byte_len(all) + 1 < usize::MAX,
            split_at_char(all, delimiter) == done + split_at_char(all.subrange(start as int, n as int), delimiter),
            find_char(all.subrange(start as int, n as int), delimiter, 0) == find_char(
                all.subrange(start as int, n as int),
                delimiter,
                i - start,
            ),
            pos as int == fields_span(done),
            fields_span(done) <= byte_len(all.subrange(0, start as int)),
            segment_ints(segments@) == segments_from(done, 0, 0),
            segments@.len() == done.len(),
        decreases n - i,
    {
        if chars[i] == delimiter {
            let field = chars_to_string(chars.as_slice(), start, i);
            let flen = field.as_str().len();
            let ghost sub = all.subrange(start as int, n as int);
            proof {
                assert(find_char(sub, delimiter, i - start) == Some(i - start));
                assert(field@ =~= sub.subrange(0, i - start));
                assert(sub.subrange(i - start + 1, sub.len() as int) =~= all.subrange(i + 1, n as int));
                assert(all.subrange(0, i + 1) =~= all.subrange(0, start as int) + field@ + seq![delimiter]);
                lemma_byte_len_concat(all.subrange(0, start as int), field@);
                lemma_byte_len_concat(all.subrange(0, start as int) + field@, seq![delimiter]);
                lemma_byte_len_char(delimiter);
                assert(all =~= all.subrange(0, i + 1) + all.subrange(i + 1, n as int));
                lemma_byte_len_concat(all.subrange(0, i + 1), all.subrange(i + 1, n as int));
                assert(flen == byte_len(field@));
            }
            let end = pos + flen;
            let k = segments.len();
            segments.push((pos, end, palette(k)));
            proof {
                lemma_segments_append(done, field@, 0, 0);
                lemma_fields_span_push(done, field@);
                let one = seq![field@];
                assert(one.drop_first() =~= Seq::<Seq<char>>::empty());
                assert(one[0] == field@);
                assert(segments_from(Seq::<Seq<char>>::empty(), end + 1, k + 1) =~= Seq::<(int, int, ThemeColor)>::empty());
                assert(segments_from(one, pos as int, k as int) =~= seq![(pos as int, end as int, palette_color(k as int))]);
                assert(segment_ints(segments@) =~= segments_from(done, 0, 0).push((pos as int, end as int, palette_color(k as int))));
                assert(split_at_char(all, delimiter) =~= done.push(field@) + split_at_char(all.subrange(i + 1, n as int), delimiter));
                done = done.push(field@);
            }
            pos = end + 1;
            start = i + 1;
        }
        i = i + 1;
    }
    let field = chars_to_string(chars.as_slice(), start, n);
    let flen = field.as_str().len();
    proof {
        let sub = all.subrange(start as int, n as int);
        assert(field@ =~= sub);
        assert(split_at_char(sub, delimiter) == seq![sub]);
        assert(all =~= all.subrange(0, start as int) + field@);
        lemma_byte_len_concat(all.subrange(0, start as int), field@);
    }
    let end = pos + flen;
    let k = segments.len();
    segments.push((pos, end, palette(k)));
    proof {
        lemma_segments_append(done, field@, 0, 0);
        let one = seq![field@];
        assert(one.drop_first() =~= Seq::<Seq<char>>::empty());
        assert(one[0] == field@);
        assert(flen == byte_len(field@));
        assert(segments_from(Seq::<Seq<char>>::empty(), end + 1, k + 1) =~= Seq::<(int, int, ThemeColor)>::empty());
        assert(segments_from(one, pos as int, k as int) =~= seq![(pos as int, end as int, palette_color(k as int))]);
        assert(segment_ints(segments@) =~= segments_from(done, 0, 0).push((pos as int, end as int, palette_color(k as int))));
        assert(split_at_char(all, delimiter) =~= done.push(field@));
    }
    segments
}


/// The text of line `i` that is colorized: the line (empty out of bounds),
/// without its trailing '\n' chars.
pub open spec fn csv_line_text(b: &buffer::Buffer, i: int) -> Seq<char> {
    trim_newlines(raw_line(b, i))
}

/// What `colorize_buffer` leaves as line styles: for each line with segments,
/// its segments; no entry for other lines.
pub open spec fn colorized(b: &buffer::Buffer, styles: Map<usize, Seq<LineStyle>>) -> bool {
    forall|i: usize|
        #![trigger styles.contains_key(i)]
        {
            &&& styles.contains_key(i) <==> (i < line_count(b@) && line_segments(csv_line_text(b, i as int), ',').len() > 0)
            &&& styles.contains_key(i) ==> segment_ints(styles[i]) == line_segments(csv_line_text(b, i as int), ',')
        }
}

fn trim_trailing_newlines(t: &str) -> (r: String)
    ensures
        r@ == trim_newlines(t@),
{
    let v = str_to_chars(t);
    let mut k = v.len();
    assert(v@.subrange(0, v@.len() as int) =~= v@);
    while k > 0 && v[k - 1] == '\n'
        invariant
            k <= v@.len(),
            trim_newlines(v@) == trim_newlines(v@.subrange(0, k as int)),
        decreases k,
    {
        proof {
            assert(v@.subrange(0, k as int).drop_last() =~= v@.subrange(0, k - 1));
        }
        k = k - 1;
    }
    proof {
        assert(trim_newlines(v@.subrange(0, k as int)) == v@.subrange(0, k as int));
    }
    chars_to_string(v.as_slice(), 0, k)
}

/// Colorizes the buffer as CSV: the line styles are cleared, then every line
/// gets the comma-separated column segments of `compute_line_segments`.
pub fn colorize_buffer(state: &mut EditorState)
    requires
        forall|i: int| 0 <= i < line_count(old(state).buffer@) ==> byte_len(#[trigger] csv_line_text(&old(state).buffer, i)) + 1
            < usize::MAX,
    ensures
        colorized(&final(state).buffer, styles_view(final(state).line_styles@)),
        final(state).buffer == old(state).buffer,
        final(state).cursor == old(state).cursor,
        final(state).viewport == old(state).viewport,
{
    editor_state::clear_line_styles(state);
    let total_lines = buffer::line_count(&state.buffer);
    let mut line_idx: usize = 0;
    while line_idx < total_lines
        invariant
            total_lines == line_count(state.buffer@),
            line_idx <= total_lines,
            state.buffer == old(state).buffer,
            state.cursor == old(state).cursor,
            state.viewport == old(state).viewport,
            forall|i: int| 0 <= i < line_count(state.buffer@) ==> byte_len(#[trigger] csv_line_text(&state.buffer, i)) + 1
                < usize::MAX,
            forall|i: usize|
                #![trigger styles_view(state.line_styles@).contains_key(i)]
                {
                    &&& styles_view(state.line_styles@).contains_key(i) <==> (i < line_idx && line_segments(
                        csv_line_text(&state.buffer, i as int),
                        ',',
                    ).len() > 0)
                    &&& styles_view(state.line_styles@).contains_key(i) ==> segment_ints(
                        styles_view(state.line_styles@)[i],
                    ) == line_segments(csv_line_text(&state.buffer, i as int), ',')
                },
        decreases total_lines - line_idx,
    {
        let raw = match buffer::get_line(&state.buffer, line_idx) {
            Some(t) => t,
            None => String::new(),
        };
        proof {
            reveal_strlit("");
            assert(raw@ == raw_line(&state.buffer, line_idx as int));
        }
        let content = trim_trailing_newlines(raw.as_str());
        proof {
            assert(byte_len(csv_line_text(&state.buffer, line_idx as int)) + 1 < usize::MAX);
        }
        let segments = compute_line_segments(content.as_str(), ',');
        let ghost target = segment_ints(segments@);
        let mut k: usize = 0;
        while k < segments.len()
            invariant
                k <= segments@.len(),
                target == segment_ints(segments@),
                target == line_segments(csv_line_text(&state.buffer, line_idx as int), ','),
                line_idx < total_lines,
                total_lines == line_count(state.buffer@),
                state.buffer == old(state).buffer,
                state.cursor == old(state).cursor,
                state.viewport == old(state).viewport,
                forall|i: usize|
                    #![trigger styles_view(state.line_styles@).contains_key(i)]
                    i != line_idx ==> {
                        &&& styles_view(state.line_styles@).contains_key(i) <==> (i < line_idx && line_segments(
                            csv_line_text(&state.buffer, i as int),
                            ',',
                        ).len() > 0)
                        &&& styles_view(state.line_styles@).contains_key(i) ==> segment_ints(
                            styles_view(state.line_styles@)[i],
                        ) == line_segments(csv_line_text(&state.buffer, i as int), ',')
                    },
                styles_view(state.line_styles@).contains_key(line_idx) <==> k > 0,
                k > 0 ==> styles_view(state.line_styles@)[line_idx] == segments@.subrange(0, k as int),
            decreases segments@.len() - k,
        {
            let (start, end, color) = segments[k];
            let ghost before = styles_view(state.line_styles@);
            editor_state::add_line_style(state, line_idx, start, end, color);
            proof {
                if k > 0 {
                    assert(segments@.subrange(0, k + 1) =~= segments@.subrange(0, k as int).push(segments@[k as int]));
                } else {
                    assert(segments@.subrange(0, 1) =~= seq![segments@[0]]);
                    assert(Seq::<LineStyle>::empty().push(segments@[0]) =~= seq![segments@[0]]);
                }
            }
            k = k + 1;
        }
        proof {
            assert(segments@.subrange(0, segments@.len() as int) =~= segments@);
        }
        line_idx = line_idx + 1;
    }
}
} // verus!
