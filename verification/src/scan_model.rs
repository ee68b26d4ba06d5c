//! The mathematical model of the scanner.
//!
//! The scanner walks the UTF-8 bytes of the file character by character and
//! records three sequences: line starts, multi-byte characters, and
//! non-narrow characters. The functions here define those sequences as pure
//! functions of the byte sequence, for an arbitrary sub-range of the walk;
//! both executable scan paths are proved against them.
//!
//! The walk over `[i, end)` processes every character whose first byte lies
//! before `end`; the final character may extend past `end`. Every recorded
//! position is shifted by `delta`, which lets one statement cover both the
//! whole-file walk and a chunked walk that re-bases its output.

use vstd::prelude::*;
use vstd::utf8::{
    decode_first_scalar, is_char_boundary, is_continuation_byte, is_scalar,
    length_of_first_scalar, valid_first_scalar, valid_utf8,
};

use crate::chars::{MultiByteChar, NonNarrowChar};
use crate::pos::RelativeBytePos;
use crate::unicode::effective_width;

verus! {

/// The encoded length of the character whose leading byte is `b`.
/// Meaningful only for leading bytes of a valid encoding.
pub open spec fn utf8_len(b: u8) -> int {
    if b < 0xC0 {
        1
    } else if b < 0xE0 {
        2
    } else if b < 0xF0 {
        3
    } else {
        4
    }
}

/// The scalar value of the character starting at byte `i`.
pub open spec fn scalar_at(s: Seq<u8>, i: int) -> u32 {
    decode_first_scalar(s.subrange(i, s.len() as int))
}

/// The rendered width of the character starting at byte `i`.
pub open spec fn width_at(s: Seq<u8>, i: int) -> int {
    effective_width(scalar_at(s, i) as char)
}

/// Line starts recorded by the walk over `[i, end)`: one entry immediately
/// after each newline byte.
pub open spec fn lines_from(s: Seq<u8>, i: int, end: int, delta: int) -> Seq<RelativeBytePos>
    decreases end - i,
{
    if i < 0 || i >= end || end > s.len() {
        Seq::empty()
    } else {
        let l = utf8_len(s[i]);
        let j = if i + l > end {
            end
        } else {
            i + l
        };
        let rest = lines_from(s, j, end, delta);
        if s[i] == 10 {
            seq![RelativeBytePos((i + delta + 1) as u32)] + rest
        } else {
            rest
        }
    }
}

/// Multi-byte records produced by the walk over `[i, end)`: one per
/// character whose encoding occupies more than one byte.
pub open spec fn mbcs_from(s: Seq<u8>, i: int, end: int, delta: int) -> Seq<MultiByteChar>
    decreases end - i,
{
    if i < 0 || i >= end || end > s.len() {
        Seq::empty()
    } else {
        let l = utf8_len(s[i]);
        let j = if i + l > end {
            end
        } else {
            i + l
        };
        let rest = mbcs_from(s, j, end, delta);
        if l > 1 {
            seq![MultiByteChar { pos: RelativeBytePos((i + delta) as u32), bytes: l as u8 }] + rest
        } else {
            rest
        }
    }
}

/// Non-narrow records produced by the walk over `[i, end)`, following the
/// recording policy: a tab renders 4 cells wide, any other control byte is
/// zero width, and a character at or above the ASCII ceiling is recorded
/// with the width the Unicode tables give it whenever that width is not 1.
pub open spec fn nncs_from(s: Seq<u8>, i: int, end: int, delta: int) -> Seq<NonNarrowChar>
    decreases end - i,
{
    if i < 0 || i >= end || end > s.len() {
        Seq::empty()
    } else {
        let b = s[i];
        let l = utf8_len(b);
        let j = if i + l > end {
            end
        } else {
            i + l
        };
        let rest = nncs_from(s, j, end, delta);
        let pos = RelativeBytePos(((i + delta)) as u32);
        if b == 10 {
            rest
        } else if b == 9 {
            seq![NonNarrowChar::Tab(pos)] + rest
        } else if b < 32 {
            seq![NonNarrowChar::ZeroWidth(pos)] + rest
        } else if b < 127 {
            rest
        } else {
            let w = width_at(s, i);
            if w != 1 {
                seq![NonNarrowChar::spec_new(pos, w)] + rest
            } else {
                rest
            }
        }
    }
}

/// The raw line-start table of a whole file: the walk optimistically
/// records a line start after every newline, including one at end-of-file
/// when the text ends on a newline.
pub open spec fn raw_lines(s: Seq<u8>) -> Seq<RelativeBytePos> {
    seq![RelativeBytePos(0)] + lines_from(s, 0, s.len() as int, 0)
}

/// The line-start table of a whole file: the raw table with a trailing
/// entry that equals the file length removed, so a trailing newline does
/// not create a phantom empty final line.
pub open spec fn analyzed_lines(s: Seq<u8>) -> Seq<RelativeBytePos> {
    let raw = raw_lines(s);
    if raw.last().0 == s.len() {
        raw.drop_last()
    } else {
        raw
    }
}

/// The multi-byte-character table of a whole file.
pub open spec fn analyzed_mbcs(s: Seq<u8>) -> Seq<MultiByteChar> {
    mbcs_from(s, 0, s.len() as int, 0)
}

/// The non-narrow-character table of a whole file.
pub open spec fn analyzed_nncs(s: Seq<u8>) -> Seq<NonNarrowChar> {
    nncs_from(s, 0, s.len() as int, 0)
}

/// At a character boundary inside valid UTF-8, the leading byte determines
/// the character's length, the suffix starting there is a well-formed
/// scalar, the whole character lies within the text, its interior bytes are
/// continuation bytes, and the next boundary is one character further.
pub proof fn lemma_boundary_step(s: Seq<u8>, i: int)
    requires
        valid_utf8(s),
        is_char_boundary(s, i),
        0 <= i < s.len(),
    ensures
        valid_first_scalar(s.subrange(i, s.len() as int)),
        utf8_len(s[i]) == length_of_first_scalar(s.subrange(i, s.len() as int)),
        i + utf8_len(s[i]) <= s.len(),
        is_char_boundary(s, i + utf8_len(s[i])),
        forall|k: int| i < k < i + utf8_len(s[i]) ==> is_continuation_byte(#[trigger] s[k]),
        !is_continuation_byte(s[i]),
{
    broadcast use vstd::utf8::group_utf8_lib;

    let suffix = s.subrange(i, s.len() as int);
    assert(valid_utf8(suffix));
    assert(valid_first_scalar(suffix));
    let l = length_of_first_scalar(suffix);
    assert(suffix[0] == s[i]);
    assert(utf8_len(s[i]) == l);
    assert(l <= suffix.len());
    // Interior bytes of the character are continuation bytes.
    assert forall|k: int| i < k < i + l implies is_continuation_byte(#[trigger] s[k]) by {
        assert(suffix[k - i] == s[k]);
    }
    // The next boundary: either end-of-text, or the first byte after the
    // character, which is the leading byte of the next scalar.
    if i + l < s.len() {
        let rest = vstd::utf8::pop_first_scalar(suffix);
        assert(valid_utf8(rest));
        assert(rest[0] == s[i + l]);
        assert(!is_continuation_byte(s[i + l]));
        assert(is_char_boundary(s, i + l));
    } else {
        assert(is_char_boundary(s, s.len() as int));
    }
}

/// The scalar decoded at a boundary is a legal Unicode scalar value.
pub proof fn lemma_scalar_at_is_scalar(s: Seq<u8>, i: int)
    requires
        valid_utf8(s),
        is_char_boundary(s, i),
        0 <= i < s.len(),
    ensures
        is_scalar(scalar_at(s, i)),
{
    lemma_boundary_step(s, i);
    let suffix = s.subrange(i, s.len() as int);
    let c = decode_first_scalar(suffix);
    let b1 = suffix[0];
    if vstd::utf8::is_leading_byte_width_1(b1) {
        assert(is_scalar(c)) by (bit_vector)
            requires
                c == vstd::utf8::codepoint_width_1(b1) && 0x00 <= b1 <= 0x7f,
        ;
    } else if vstd::utf8::is_leading_byte_width_2(b1) {
        let b2 = suffix[1];
        assert(is_scalar(c)) by (bit_vector)
            requires
                c == vstd::utf8::codepoint_width_2(b1, b2) && 0xc0 <= b1 <= 0xdf && 0x80 <= b2
                    <= 0xbf && 0x80 <= c,
        ;
    } else if vstd::utf8::is_leading_byte_width_3(b1) {
        let b2 = suffix[1];
        let b3 = suffix[2];
        assert(is_scalar(c)) by (bit_vector)
            requires
                c == vstd::utf8::codepoint_width_3(b1, b2, b3) && 0xe0 <= b1 <= 0xef && 0x80 <= b2
                    <= 0xbf && 0x80 <= b3 <= 0xbf && 0x800 <= c && !(0xD800 <= c <= 0xDFFF),
        ;
    } else {
        assert(0x10000 <= c <= 0x10ffff);
    }
}


/// The walk over `[a, c)` splits at any character boundary `b` between its
/// ends: the records are those of `[a, b)` followed by those of `[b, c)`.
pub proof fn lemma_walk_concat(s: Seq<u8>, a: int, b: int, c: int, delta: int)
    requires
        valid_utf8(s),
        is_char_boundary(s, a),
        is_char_boundary(s, b),
        0 <= a <= b <= c <= s.len(),
    ensures
        lines_from(s, a, c, delta) == lines_from(s, a, b, delta) + lines_from(s, b, c, delta),
        mbcs_from(s, a, c, delta) == mbcs_from(s, a, b, delta) + mbcs_from(s, b, c, delta),
        nncs_from(s, a, c, delta) == nncs_from(s, a, b, delta) + nncs_from(s, b, c, delta),
    decreases b - a,
{
    broadcast use vstd::utf8::is_char_boundary_iff_not_is_continuation_byte;

    if a == b {
        assert(lines_from(s, a, b, delta) =~= Seq::empty());
        assert(lines_from(s, a, c, delta) =~= lines_from(s, a, b, delta) + lines_from(s, b, c, delta));
        assert(mbcs_from(s, a, b, delta) =~= Seq::empty());
        assert(mbcs_from(s, a, c, delta) =~= mbcs_from(s, a, b, delta) + mbcs_from(s, b, c, delta));
        assert(nncs_from(s, a, b, delta) =~= Seq::empty());
        assert(nncs_from(s, a, c, delta) =~= nncs_from(s, a, b, delta) + nncs_from(s, b, c, delta));
    } else {
        lemma_boundary_step(s, a);
        let l = utf8_len(s[a]);
        // A boundary cannot sit strictly inside the character at `a`, whose
        // interior bytes are continuation bytes.
        assert(a + l <= b);
        lemma_walk_concat(s, a + l, b, c, delta);
        assert(lines_from(s, a, c, delta) =~= lines_from(s, a, b, delta) + lines_from(s, b, c, delta));
        assert(mbcs_from(s, a, c, delta) =~= mbcs_from(s, a, b, delta) + mbcs_from(s, b, c, delta));
        assert(nncs_from(s, a, c, delta) =~= nncs_from(s, a, b, delta) + nncs_from(s, b, c, delta));
    }
}


/// The positions immediately after each newline byte in `[i, end)`,
/// shifted by `delta`: the byte-by-byte reading of the line-start table,
/// which the chunked scan batches directly from an ASCII chunk.
pub open spec fn nl_positions(s: Seq<u8>, i: int, end: int, delta: int) -> Seq<RelativeBytePos>
    decreases end - i,
{
    if i < 0 || i >= end || end > s.len() {
        Seq::empty()
    } else {
        let rest = nl_positions(s, i + 1, end, delta);
        if s[i] == 10 {
            seq![RelativeBytePos((i + delta + 1) as u32)] + rest
        } else {
            rest
        }
    }
}

/// Extending a newline-position range by one byte appends at most one entry.
pub proof fn lemma_nl_positions_snoc(s: Seq<u8>, a: int, b: int, delta: int)
    requires
        0 <= a <= b < s.len(),
    ensures
        nl_positions(s, a, b + 1, delta) == nl_positions(s, a, b, delta) + (if s[b] == 10 {
            seq![RelativeBytePos((b + delta + 1) as u32)]
        } else {
            Seq::<RelativeBytePos>::empty()
        }),
    decreases b - a,
{
    let tailbit = if s[b] == 10 {
        seq![RelativeBytePos((b + delta + 1) as u32)]
    } else {
        Seq::<RelativeBytePos>::empty()
    };
    if a == b {
        assert(nl_positions(s, a, b, delta) =~= Seq::empty());
        assert(nl_positions(s, a + 1, b + 1, delta) =~= Seq::empty());
        assert(nl_positions(s, a, b + 1, delta) =~= nl_positions(s, a, b, delta) + tailbit);
    } else {
        lemma_nl_positions_snoc(s, a + 1, b, delta);
        assert(nl_positions(s, a, b + 1, delta) =~= nl_positions(s, a, b, delta) + tailbit);
    }
}

/// A range without newline bytes contributes no newline positions.
pub proof fn lemma_nl_positions_empty(s: Seq<u8>, a: int, b: int, delta: int)
    requires
        forall|k: int| a <= k < b ==> #[trigger] s[k] != 10,
    ensures
        nl_positions(s, a, b, delta) == Seq::<RelativeBytePos>::empty(),
    decreases b - a,
{
    if 0 <= a < b <= s.len() {
        lemma_nl_positions_empty(s, a + 1, b, delta);
        assert(nl_positions(s, a, b, delta) =~= Seq::empty());
    } else {
        assert(nl_positions(s, a, b, delta) =~= Seq::empty());
    }
}

/// Over an ASCII range whose only control bytes are newlines, the walk
/// records no multi-byte and no non-narrow characters, its line starts are
/// exactly the newline positions, and every index in the range is a
/// character boundary.
pub proof fn lemma_newline_ascii_run(s: Seq<u8>, a: int, b: int, delta: int)
    requires
        valid_utf8(s),
        is_char_boundary(s, a),
        0 <= a <= b <= s.len(),
        forall|k: int| a <= k < b ==> #[trigger] s[k] < 0x80,
        forall|k: int| a <= k < b && (#[trigger] s[k] < 32 || s[k] == 127) ==> s[k] == 10,
    ensures
        is_char_boundary(s, b),
        lines_from(s, a, b, delta) == nl_positions(s, a, b, delta),
        mbcs_from(s, a, b, delta) == Seq::<MultiByteChar>::empty(),
        nncs_from(s, a, b, delta) == Seq::<NonNarrowChar>::empty(),
    decreases b - a,
{
    if a == b {
        assert(lines_from(s, a, b, delta) =~= nl_positions(s, a, b, delta));
        assert(mbcs_from(s, a, b, delta) =~= Seq::empty());
        assert(nncs_from(s, a, b, delta) =~= Seq::empty());
    } else {
        lemma_boundary_step(s, a);
        assert(utf8_len(s[a]) == 1);
        lemma_newline_ascii_run(s, a + 1, b, delta);
        assert(lines_from(s, a, b, delta) =~= nl_positions(s, a, b, delta));
        assert(mbcs_from(s, a, b, delta) =~= Seq::empty());
        assert(nncs_from(s, a, b, delta) =~= Seq::empty());
    }
}


/// A line-start table is strictly increasing.
pub open spec fn lines_sorted(table: Seq<RelativeBytePos>) -> bool {
    forall|a: int, b: int|
        0 <= a < b < table.len() ==> (#[trigger] table[a]).0 < (#[trigger] table[b]).0
}

/// Multi-byte records are sorted by position with pairwise disjoint spans.
pub open spec fn mbcs_sorted(table: Seq<MultiByteChar>) -> bool {
    forall|a: int, b: int|
        0 <= a < b < table.len() ==> (#[trigger] table[a]).pos.0 + table[a].bytes
            <= (#[trigger] table[b]).pos.0
}

/// Non-narrow records are sorted strictly by position.
pub open spec fn nncs_sorted(table: Seq<NonNarrowChar>) -> bool {
    forall|a: int, b: int|
        0 <= a < b < table.len() ==> (#[trigger] table[a]).spec_pos()
            < (#[trigger] table[b]).spec_pos()
}

/// The position `p` does not fall strictly inside the byte span of any
/// recorded multi-byte character.
pub open spec fn pos_outside_mbc_spans(table: Seq<MultiByteChar>, p: int) -> bool {
    forall|a: int|
        0 <= a < table.len() ==> !((#[trigger] table[a]).pos.0 < p < table[a].pos.0
            + table[a].bytes)
}

/// Structural properties of everything the walk over `[i, end)` records:
/// each table is sorted, every recorded position lies in the walked range
/// and sits on a character boundary, multi-byte spans fit inside the text
/// and contain no boundary strictly inside, and line starts come strictly
/// after the position of their newline.
pub proof fn lemma_walk_table_props(s: Seq<u8>, i: int, end: int, delta: int)
    requires
        valid_utf8(s),
        is_char_boundary(s, i),
        0 <= i <= end <= s.len(),
        0 <= i + delta,
        end + delta <= u32::MAX,
    ensures
        ({
            let table = lines_from(s, i, end, delta);
            &&& lines_sorted(table)
            &&& forall|a: int|
                0 <= a < table.len() ==> i + delta < (#[trigger] table[a]).0 <= end + delta
                    && is_char_boundary(s, table[a].0 - delta)
        }),
        ({
            let table = mbcs_from(s, i, end, delta);
            &&& mbcs_sorted(table)
            &&& forall|a: int|
                0 <= a < table.len() ==> i + delta <= (#[trigger] table[a]).pos.0 < end + delta
                    && 2 <= table[a].bytes <= 4 && table[a].pos.0 - delta + table[a].bytes
                    <= s.len() && is_char_boundary(s, table[a].pos.0 - delta)
            &&& forall|a: int, x: int|
                0 <= a < table.len() && (#[trigger] table[a]).pos.0 - delta < x < table[a].pos.0
                    - delta + table[a].bytes ==> !(#[trigger] is_char_boundary(s, x))
        }),
        ({
            let table = nncs_from(s, i, end, delta);
            &&& nncs_sorted(table)
            &&& forall|a: int|
                0 <= a < table.len() ==> i + delta <= (#[trigger] table[a]).spec_pos() < end
                    + delta && is_char_boundary(s, table[a].spec_pos() - delta)
        }),
    decreases end - i,
{
    broadcast use vstd::utf8::is_char_boundary_iff_not_is_continuation_byte;

    if i < end {
        lemma_boundary_step(s, i);
        let l = utf8_len(s[i]);
        if i + l <= end {
            lemma_walk_table_props(s, i + l, end, delta);
        } else {
            // The rest of the walk is empty: the final character crossed
            // `end`.
            assert(lines_from(s, end, end, delta) =~= Seq::empty());
            assert(mbcs_from(s, end, end, delta) =~= Seq::empty());
            assert(nncs_from(s, end, end, delta) =~= Seq::empty());
        }
    }
}


/// All multi-byte spans are between two and four bytes wide.
pub open spec fn mbcs_bytes_valid(table: Seq<MultiByteChar>) -> bool {
    forall|a: int| 0 <= a < table.len() ==> 2 <= (#[trigger] table[a]).bytes <= 4
}

/// The structural invariants of a whole file's analyzed tables: the line
/// table starts at zero, is strictly increasing and never holds the file
/// length; multi-byte records are sorted with disjoint in-bounds spans; the
/// non-narrow records are sorted and in bounds; and every line start and
/// non-narrow position is a character boundary, so none of them falls
/// strictly inside a multi-byte character's span.
pub proof fn lemma_analyzed_tables_wf(s: Seq<u8>)
    requires
        valid_utf8(s),
        s.len() <= u32::MAX,
    ensures
        ({
            let table = analyzed_lines(s);
            &&& lines_sorted(table)
            &&& (s.len() > 0 ==> table.len() > 0)
            &&& (table.len() > 0 ==> table[0].0 == 0)
            &&& forall|a: int| 0 <= a < table.len() ==> (#[trigger] table[a]).0 < s.len()
            &&& forall|a: int|
                0 <= a < table.len() ==> is_char_boundary(s, (#[trigger] table[a]).0 as int)
            &&& forall|a: int|
                0 <= a < table.len() ==> pos_outside_mbc_spans(
                    analyzed_mbcs(s),
                    (#[trigger] table[a]).0 as int,
                )
        }),
        ({
            let table = analyzed_mbcs(s);
            &&& mbcs_sorted(table)
            &&& mbcs_bytes_valid(table)
            &&& forall|a: int|
                0 <= a < table.len() ==> (#[trigger] table[a]).pos.0 + table[a].bytes <= s.len()
                    && is_char_boundary(s, table[a].pos.0 as int)
        }),
        ({
            let table = analyzed_nncs(s);
            &&& nncs_sorted(table)
            &&& forall|a: int|
                0 <= a < table.len() ==> (#[trigger] table[a]).spec_pos() < s.len()
                    && is_char_boundary(s, table[a].spec_pos() as int)
            &&& forall|a: int|
                0 <= a < table.len() ==> pos_outside_mbc_spans(
                    analyzed_mbcs(s),
                    (#[trigger] table[a]).spec_pos() as int,
                )
        }),
{
    let n = s.len() as int;
    lemma_walk_table_props(s, 0, n, 0);
    broadcast use vstd::utf8::is_char_boundary_start_end_of_seq;

    let walked = lines_from(s, 0, n, 0);
    let raw = raw_lines(s);
    assert(raw[0].0 == 0);
    assert(forall|a: int| 0 < a < raw.len() ==> raw[a] == walked[a - 1]);
    assert(lines_sorted(raw));
    let table = analyzed_lines(s);
    assert(forall|a: int| 0 <= a < table.len() ==> table[a] == raw[a]);
    // Only the final raw entry can equal the file length, and if it does it
    // is dropped; what remains is strictly below the length.
    assert forall|a: int| 0 <= a < table.len() implies (#[trigger] table[a]).0 < s.len() by {
        if raw.last().0 == s.len() {
            assert(a < raw.len() - 1);
            assert(raw[a].0 < raw[raw.len() - 1].0);
        } else {
            assert(raw[a].0 <= raw[raw.len() - 1].0);
        }
    }
    // Boundaries of every recorded position, and therefore positions outside
    // every multi-byte span.
    assert forall|a: int| 0 <= a < table.len() implies is_char_boundary(
        s,
        (#[trigger] table[a]).0 as int,
    ) by {
        if a > 0 {
            assert(table[a] == walked[a - 1]);
        }
    }
    let mbcs = analyzed_mbcs(s);
    assert forall|a: int| 0 <= a < table.len() implies pos_outside_mbc_spans(
        mbcs,
        (#[trigger] table[a]).0 as int,
    ) by {
        assert(is_char_boundary(s, table[a].0 as int));
    }
    let nncs = analyzed_nncs(s);
    assert forall|a: int| 0 <= a < nncs.len() implies pos_outside_mbc_spans(
        mbcs,
        (#[trigger] nncs[a]).spec_pos() as int,
    ) by {
        assert(is_char_boundary(s, nncs[a].spec_pos() as int));
    }
}

} // verus!
