use source_index::analyze::{analyze_source_file, analyze_source_file_fallback};
use source_index::chars::{MultiByteChar, NonNarrowChar};
use source_index::pos::RelativeBytePos;

fn check(
    text: &str,
    lines: Vec<u32>,
    multi_byte_chars: Vec<(u32, u8)>,
    non_narrow_chars: Vec<(u32, usize)>,
) {
    let (got_lines, got_mbcs, got_nncs) = analyze_source_file(text);

    let expected_lines: Vec<RelativeBytePos> = lines.into_iter().map(RelativeBytePos).collect();
    assert_eq!(got_lines, expected_lines);

    let expected_mbcs: Vec<MultiByteChar> = multi_byte_chars
        .into_iter()
        .map(|(pos, bytes)| MultiByteChar { pos: RelativeBytePos(pos), bytes })
        .collect();
    assert_eq!(got_mbcs, expected_mbcs);

    let expected_nncs: Vec<NonNarrowChar> = non_narrow_chars
        .into_iter()
        .map(|(pos, width)| NonNarrowChar::new(RelativeBytePos(pos), width))
        .collect();
    assert_eq!(got_nncs, expected_nncs);

    // The generic walk alone must record exactly the same tables.
    let (fb_lines, fb_mbcs, fb_nncs) = analyze_source_file_fallback(text);
    assert_eq!(fb_lines, got_lines);
    assert_eq!(fb_mbcs, got_mbcs);
    assert_eq!(fb_nncs, got_nncs);
}

#[test]
fn empty_text() {
    check("", vec![], vec![], vec![]);
}

#[test]
fn newlines_short() {
    check("a\nc", vec![0, 2], vec![], vec![]);
}

#[test]
fn newlines_long() {
    check("012345678\nabcdef012345678\na", vec![0, 10, 26], vec![], vec![]);
}

#[test]
fn newline_and_multi_byte_char_in_same_chunk() {
    check("01234\u{03b2}789\nbcdef0123456789abcdef", vec![0, 11], vec![(5, 2)], vec![]);
}

#[test]
fn newline_and_control_char_in_same_chunk() {
    check("01234\u{07}6789\nbcdef0123456789abcdef", vec![0, 11], vec![], vec![(5, 0)]);
}

#[test]
fn multi_byte_char_short() {
    check("a\u{03b2}c", vec![0], vec![(1, 2)], vec![]);
}

#[test]
fn multi_byte_char_long() {
    check("0123456789abc\u{0394}f012345\u{03b2}", vec![0], vec![(13, 2), (22, 2)], vec![]);
}

#[test]
fn multi_byte_char_across_chunk_boundary() {
    check("0123456789abcde\u{0394}123456789abcdef01234", vec![0], vec![(15, 2)], vec![]);
}

#[test]
fn multi_byte_char_across_chunk_boundary_tail() {
    check("0123456789abcde\u{0394}....", vec![0], vec![(15, 2)], vec![]);
}

#[test]
fn non_narrow_short() {
    check("0\t2", vec![0], vec![], vec![(1, 4)]);
}

#[test]
fn non_narrow_long() {
    check("01\t3456789abcdef01234567\u{07}9", vec![0], vec![], vec![(2, 4), (24, 0)]);
}

#[test]
fn output_offset_all() {
    check(
        "01\t345\n789abc\u{0394}f01234567\u{07}9\nbc\u{0394}f",
        vec![0, 7, 27],
        vec![(13, 2), (29, 2)],
        vec![(2, 4), (24, 0)],
    );
}

#[test]
fn fast_and_generic_agree_on_wide_and_mixed_text() {
    // Texts chosen to drive every path of the chunked scan: quiet ASCII
    // chunks, newline-only chunks, control bytes mixed with newlines in one
    // chunk, wide CJK characters, and characters straddling a chunk
    // boundary.
    let samples = [
        "",
        "\n",
        "\n\n\n\n\n\n\n\n\n\n\n\n\n\n\n\n\n\n",
        "0123456789abcdef0123456789abcdef",
        "0123456789abcde\n0123456789abcde\n",
        "a\tb\nc\u{07}d\ne",
        "\u{4e16}\u{754c}, \u{4e16}\u{754c}!\nsecond line\nthird\t line",
        "0123456789abcde\u{1F600}tail after an astral character",
        "mixed \u{00e9}\u{4e16}\u{1F600}\t\u{07}\n end",
    ];
    for text in samples {
        let (a_lines, a_mbcs, a_nncs) = analyze_source_file(text);
        let (b_lines, b_mbcs, b_nncs) = analyze_source_file_fallback(text);
        assert_eq!(a_lines, b_lines);
        assert_eq!(a_mbcs, b_mbcs);
        assert_eq!(a_nncs, b_nncs);
    }
}

#[test]
fn wide_character_recorded_with_width_two() {
    // One fullwidth CJK character: three encoded bytes, rendered two cells
    // wide.
    check("a\u{4e16}b", vec![0], vec![(1, 3)], vec![(1, 2)]);
}

#[test]
fn line_table_properties_hold_on_sample() {
    // The first line starts at zero, the table is strictly increasing, and
    // it never holds the text's byte length even when the text ends on a
    // newline.
    let (lines, _, _) = analyze_source_file("ab\ncd\n");
    assert_eq!(lines, vec![RelativeBytePos(0), RelativeBytePos(3)]);
    let text = "one\ntwo\nthree\n";
    let (lines, _, _) = analyze_source_file(text);
    assert_eq!(lines[0], RelativeBytePos(0));
    for i in 1..lines.len() {
        assert!(lines[i - 1].0 < lines[i].0);
        assert!((lines[i].0 as usize) < text.len());
    }
}

#[test]
fn del_is_zero_width() {
    // ASCII DEL reaches the decoding path and is recorded as zero width.
    check("a\u{7f}b", vec![0], vec![], vec![(1, 0)]);
}

#[test]
fn narrow_accented_char_gets_no_width_record() {
    // A two-byte character of width one: a multi-byte record, no non-narrow
    // record.
    check("\u{00e9}", vec![0], vec![(0, 2)], vec![]);
}
