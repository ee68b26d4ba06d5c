use source_index::chars::NonNarrowChar;
use source_index::file::{FileName, FileNameDisplayPreference, SourceFile};
use source_index::hashes::{SourceFileHash, SourceFileHashAlgorithm};
use source_index::pos::{BytePos, CharPos, RelativeBytePos};

fn make(text: &str) -> SourceFile {
    SourceFile::new(
        FileName::Real(String::from("test.rs")),
        String::from(text),
        SourceFileHashAlgorithm::Sha256,
    )
    .unwrap()
}

#[test]
fn construction_freezes_the_scan() {
    let sf = make("01\t345\n789abc\u{0394}f01234567\u{07}9\nbc\u{0394}f");
    assert_eq!(sf.start_pos, BytePos(0));
    assert_eq!(sf.source_len, RelativeBytePos(32));
    assert_eq!(sf.count_lines(), 3);
    assert_eq!(sf.lines(), &[RelativeBytePos(0), RelativeBytePos(7), RelativeBytePos(27)]);
    assert_eq!(sf.multibyte_chars.len(), 2);
    assert_eq!(sf.non_narrow_chars.len(), 2);
    assert_eq!(sf.src_hash.kind, SourceFileHashAlgorithm::Sha256);
    assert!(sf.src.is_some());
}

#[test]
fn empty_file_has_no_lines() {
    let sf = make("");
    assert_eq!(sf.count_lines(), 0);
    assert_eq!(sf.lookup_line(RelativeBytePos(0)), None);
}

#[test]
fn lookup_line_finds_greatest_start() {
    let sf = make("a\nc");
    assert_eq!(sf.lines(), &[RelativeBytePos(0), RelativeBytePos(2)]);
    assert_eq!(sf.lookup_line(RelativeBytePos(0)), Some(0));
    assert_eq!(sf.lookup_line(RelativeBytePos(1)), Some(0));
    assert_eq!(sf.lookup_line(RelativeBytePos(2)), Some(1));
    assert_eq!(sf.lookup_line(RelativeBytePos(3)), Some(1));
}

#[test]
fn char_position_subtracts_multi_byte_corrections() {
    let sf = make("a\u{03b2}c");
    assert_eq!(sf.bytepos_to_file_charpos(RelativeBytePos(0)), CharPos(0));
    assert_eq!(sf.bytepos_to_file_charpos(RelativeBytePos(1)), CharPos(1));
    assert_eq!(sf.bytepos_to_file_charpos(RelativeBytePos(3)), CharPos(2));
}

#[test]
fn char_position_is_monotonic_on_sample() {
    let text = "a\u{03b2}\u{4e16}c\nd\u{1F600}e";
    let sf = make(text);
    let mut prev = 0usize;
    let mut pos = 0u32;
    // Walk the character boundaries of the text in byte order.
    for (off, _) in text.char_indices() {
        let cp = sf.bytepos_to_file_charpos(RelativeBytePos(off as u32)).0;
        assert!(cp >= prev);
        prev = cp;
        pos = off as u32;
    }
    let end = sf.bytepos_to_file_charpos(RelativeBytePos(text.len() as u32)).0;
    assert!(end >= prev);
    assert!(pos < text.len() as u32);
}

#[test]
fn absolute_relative_round_trip() {
    let mut sf = make("hello\nworld");
    sf.start_pos = BytePos(100);
    let x = BytePos(107);
    assert_eq!(sf.absolute_position(sf.relative_position(x)), x);
    // And at the boundary itself.
    let y = BytePos(100);
    assert_eq!(sf.absolute_position(sf.relative_position(y)), y);
}

#[test]
fn column_zero_at_recorded_line_starts() {
    let sf = make("ab\ncd\nef");
    for i in 0..sf.count_lines() {
        let start = sf.lines()[i];
        let (line, col, _) = sf.lookup_file_pos_with_col_display(BytePos(start.0));
        assert_eq!(line, i + 1);
        assert_eq!(col, CharPos(0));
    }
}

#[test]
fn display_column_counts_tab_as_four_cells() {
    // A tab occupies one logical character but renders four cells wide, so
    // the display column after it is the raw column minus 1 plus 4.
    let sf = make("a\tbc");
    let (line, col, col_display) = sf.lookup_file_pos_with_col_display(BytePos(2));
    assert_eq!(line, 1);
    assert_eq!(col, CharPos(2));
    assert_eq!(col_display, 2 - 1 + 4);
}

#[test]
fn display_column_counts_wide_character_as_two_cells() {
    let sf = make("a\u{4e16}b");
    let (line, col, col_display) = sf.lookup_file_pos_with_col_display(BytePos(4));
    assert_eq!(line, 1);
    assert_eq!(col, CharPos(2));
    assert_eq!(col_display, 2 - 1 + 2);
}

#[test]
fn display_column_on_later_line() {
    let sf = make("first\na\t\u{4e16}z");
    // Position of 'z': bytes 6..: 'a' (1), tab (1), CJK (3), so 'z' is at 11.
    let (line, col, col_display) = sf.lookup_file_pos_with_col_display(BytePos(11));
    assert_eq!(line, 2);
    assert_eq!(col, CharPos(3));
    // Three logical characters before it on the line; the tab renders 4
    // cells and the wide character 2.
    assert_eq!(col_display, 3 - 2 + 4 + 2);
}

#[test]
fn get_line_slices_to_newline() {
    let sf = make("ab\ncd\nef");
    assert_eq!(sf.get_line(0), Some("ab"));
    assert_eq!(sf.get_line(1), Some("cd"));
    assert_eq!(sf.get_line(2), Some("ef"));
    assert_eq!(sf.get_line(3), None);
}

#[test]
fn get_line_handles_missing_trailing_newline() {
    let sf = make("partial");
    assert_eq!(sf.get_line(0), Some("partial"));
    let sf = make("done\n");
    assert_eq!(sf.get_line(0), Some("done"));
    assert_eq!(sf.get_line(1), None);
}

#[test]
fn get_lines_spans_inclusive_range() {
    let sf = make("ab\ncd\nef\n");
    assert_eq!(sf.get_lines(0..=1), Some("ab\ncd"));
    assert_eq!(sf.get_lines(0..=2), Some("ab\ncd\nef"));
    assert_eq!(sf.get_lines(1..=1), Some("cd"));
    assert_eq!(sf.get_lines(0..=3), None);
}

#[test]
fn evicted_text_makes_line_retrieval_unavailable() {
    let mut sf = make("ab\ncd");
    sf.src = None;
    assert_eq!(sf.get_line(0), None);
    assert_eq!(sf.get_lines(0..=1), None);
    // Position queries keep working from the frozen tables.
    assert_eq!(sf.lookup_line(RelativeBytePos(3)), Some(1));
}

#[test]
fn hash_len_per_algorithm() {
    let text = "abc";
    let md5 = SourceFileHash::new(SourceFileHashAlgorithm::Md5, text);
    let sha1 = SourceFileHash::new(SourceFileHashAlgorithm::Sha1, text);
    let sha256 = SourceFileHash::new(SourceFileHashAlgorithm::Sha256, text);
    assert_eq!(md5.hash_bytes().len(), 16);
    assert_eq!(sha1.hash_bytes().len(), 20);
    assert_eq!(sha256.hash_bytes().len(), 32);
    assert_eq!(md5.kind, SourceFileHashAlgorithm::Md5);
    assert!(md5.matches("anything"));
}

#[test]
fn filename_display_forms() {
    let real = FileName::from(String::from("src/lib.rs"));
    assert_eq!(real, FileName::Real(String::from("src/lib.rs")));
    let shown = real.display(FileNameDisplayPreference::Local).to_display_string();
    assert_eq!(shown, "src/lib.rs");
    let anon = FileName::anon_source_code("fn main() {}");
    assert!(matches!(anon, FileName::Anon(_)));
    assert_eq!(anon.display(FileNameDisplayPreference::Short).to_display_string(), "<anon>");
}

#[test]
fn anon_source_code_is_stable_within_a_process() {
    let a = FileName::anon_source_code("same text");
    let b = FileName::anon_source_code("same text");
    assert_eq!(a, b);
}

#[test]
fn stable_id_distinguishes_variants() {
    let sf = make("x");
    let other = SourceFile::new(
        FileName::Anon(7),
        String::from("x"),
        SourceFileHashAlgorithm::Sha256,
    )
    .unwrap();
    assert_ne!(sf.stable_id, other.stable_id);
}

#[test]
fn non_narrow_char_accessors_and_shifts() {
    let c = NonNarrowChar::new(RelativeBytePos(5), 0);
    assert_eq!(c.pos(), RelativeBytePos(5));
    assert_eq!(c.width(), 0);
    let w = NonNarrowChar::new(RelativeBytePos(9), 2);
    assert_eq!(w.width(), 2);
    let t = NonNarrowChar::new(RelativeBytePos(1), 4);
    assert_eq!(t.width(), 4);
    let shifted = t.add(RelativeBytePos(10));
    assert_eq!(shifted.pos(), RelativeBytePos(11));
    assert_eq!(shifted.width(), 4);
    let back = shifted.sub(RelativeBytePos(4));
    assert_eq!(back.pos(), RelativeBytePos(7));
}

#[test]
fn end_position_accounts_for_start_offset() {
    let mut sf = make("hello");
    sf.start_pos = BytePos(40);
    assert_eq!(sf.end_position(), BytePos(45));
}

#[test]
fn lookup_before_first_line_reports_line_zero() {
    // An empty file has no recorded lines at all, so any position reports
    // line 0 with the raw character position as the column.
    let sf = make("");
    let (line, col, col_display) = sf.lookup_file_pos_with_col_display(BytePos(0));
    assert_eq!(line, 0);
    assert_eq!(col, CharPos(0));
    assert_eq!(col_display, 0);
}
