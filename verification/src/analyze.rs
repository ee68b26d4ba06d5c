//! The scanner: finds all newlines, multi-byte characters, and non-narrow
//! characters in a source file.
//!
//! Two paths produce the records: a generic byte-by-byte walk, and a chunked
//! fast path that skips over blocks of plain ASCII text. Both are proved
//! against the same model in [`crate::scan_model`], so they agree on every
//! input.

use vstd::prelude::*;
use vstd::string::StringSliceAdditionalSpecFns;
use vstd::utf8::{is_char_boundary, is_continuation_byte, valid_utf8};

use crate::chars::{MultiByteChar, NonNarrowChar};
use crate::pos::RelativeBytePos;
use crate::scan_model::{
    analyzed_lines, analyzed_mbcs, analyzed_nncs, lines_from, mbcs_from, nncs_from, nl_positions,
    raw_lines, scalar_at, utf8_len, lemma_boundary_step, lemma_newline_ascii_run,
    lemma_nl_positions_empty, lemma_nl_positions_snoc, lemma_scalar_at_is_scalar,
    lemma_walk_concat,
};
use crate::unicode::char_width;

verus! {

/// The encoded length of the character whose leading byte is `b`.
fn utf8_len_exec(b: u8) -> (l: usize)
    ensures
        l == utf8_len(b),
{
    if b < 0xC0 {
        1
    } else if b < 0xE0 {
        2
    } else if b < 0xF0 {
        3
    } else {
        4
    }
}

/// The generic scalar scan: walks `scan_len` bytes of `src` starting at
/// `start`, character by character, and appends every record the policy
/// asks for, with recorded positions re-based so that the byte at `start`
/// counts as position `output_offset`. The final character may extend past
/// the scanned range, because a UTF-8 character cannot be pre-truncated;
/// the returned overflow says how many bytes past `start + scan_len` were
/// consumed, so a chunked caller can skip that span on its next call.
pub fn analyze_source_file_generic(
    src: &[u8],
    start: usize,
    scan_len: usize,
    output_offset: u32,
    lines: &mut Vec<RelativeBytePos>,
    multi_byte_chars: &mut Vec<MultiByteChar>,
    non_narrow_chars: &mut Vec<NonNarrowChar>,
) -> (overflow: usize)
    requires
        valid_utf8(src@),
        is_char_boundary(src@, start as int),
        start + scan_len <= src@.len(),
        output_offset + scan_len <= u32::MAX,
    ensures
        overflow <= 3,
        start + scan_len + overflow <= src@.len(),
        is_char_boundary(src@, start + scan_len + overflow),
        forall|k: int|
            start + scan_len <= k < start + scan_len + overflow ==> is_continuation_byte(
                #[trigger] src@[k],
            ),
        final(lines)@ == old(lines)@ + lines_from(
            src@,
            start as int,
            start + scan_len + overflow,
            output_offset - start,
        ),
        final(multi_byte_chars)@ == old(multi_byte_chars)@ + mbcs_from(
            src@,
            start as int,
            start + scan_len + overflow,
            output_offset - start,
        ),
        final(non_narrow_chars)@ == old(non_narrow_chars)@ + nncs_from(
            src@,
            start as int,
            start + scan_len + overflow,
            output_offset - start,
        ),
{
    let ghost delta: int = output_offset as int - start as int;
    let _src_len = src.len();
    let end = start + scan_len;
    let mut i = start;
    while i < end
        invariant
            valid_utf8(src@),
            is_char_boundary(src@, start as int),
            is_char_boundary(src@, i as int),
            start <= i <= src@.len(),
            i <= end + 3,
            end == start + scan_len,
            end <= src@.len(),
            output_offset == start + delta,
            output_offset + scan_len <= u32::MAX,
            forall|k: int| end <= k < i ==> is_continuation_byte(#[trigger] src@[k]),
            lines@ == old(lines)@ + lines_from(src@, start as int, i as int, delta),
            multi_byte_chars@ == old(multi_byte_chars)@ + mbcs_from(
                src@,
                start as int,
                i as int,
                delta,
            ),
            non_narrow_chars@ == old(non_narrow_chars)@ + nncs_from(
                src@,
                start as int,
                i as int,
                delta,
            ),
        decreases src@.len() + 4 - i,
    {
        let b = src[i];
        let ghost pre_i = i as int;
        proof {
            lemma_boundary_step(src@, pre_i);
        }
        let mut char_len: usize = 1;

        if b < 32 {
            // An ASCII control character: a newline starts the next line one
            // byte further; a tab renders 4 cells wide; any other control
            // byte is zero width.
            let pos: u32 = (i - start) as u32 + output_offset;
            if b == 10 {
                lines.push(RelativeBytePos(pos + 1));
            } else if b == 9 {
                non_narrow_chars.push(NonNarrowChar::Tab(RelativeBytePos(pos)));
            } else {
                non_narrow_chars.push(NonNarrowChar::ZeroWidth(RelativeBytePos(pos)));
            }
        } else if b >= 127 {
            // Either the ASCII DEL character or the start of a multi-byte
            // character: decode the full scalar value.
            char_len = utf8_len_exec(b);
            let pos: u32 = (i - start) as u32 + output_offset;
            let c: u32 = if char_len == 1 {
                b as u32
            } else if char_len == 2 {
                (((b & 0x1F) as u32) << 6) | ((src[i + 1] & 0x3F) as u32)
            } else if char_len == 3 {
                (((b & 0x0F) as u32) << 12) | (((src[i + 1] & 0x3F) as u32) << 6) | ((src[i + 2]
                    & 0x3F) as u32)
            } else {
                (((b & 0x07) as u32) << 18) | (((src[i + 1] & 0x3F) as u32) << 12) | (((src[i + 2]
                    & 0x3F) as u32) << 6) | ((src[i + 3] & 0x3F) as u32)
            };
            proof {
                let suffix = src@.subrange(pre_i, src@.len() as int);
                assert(suffix[0] == src@[pre_i]);
                if char_len > 1 {
                    assert(suffix[1] == src@[pre_i + 1]);
                }
                if char_len > 2 {
                    assert(suffix[2] == src@[pre_i + 2]);
                }
                if char_len > 3 {
                    assert(suffix[3] == src@[pre_i + 3]);
                }
                assert(!is_continuation_byte(src@[pre_i]));
                if char_len == 1 {
                    // At a boundary a one-byte length means a plain leading
                    // byte: DEL is the only such byte at or above 127.
                    assert(b == 127);
                    assert(vstd::utf8::is_leading_byte_width_1(b));
                    assert(b & 0x7F == b) by (bit_vector)
                        requires
                            b <= 0x7F,
                    ;
                    assert(c == vstd::utf8::codepoint_width_1(b));
                } else if char_len == 2 {
                    assert(vstd::utf8::is_leading_byte_width_2(b));
                    assert(c == vstd::utf8::codepoint_width_2(suffix[0], suffix[1]));
                } else if char_len == 3 {
                    assert(vstd::utf8::is_leading_byte_width_3(b));
                    assert(c == vstd::utf8::codepoint_width_3(suffix[0], suffix[1], suffix[2]));
                } else {
                    assert(vstd::utf8::is_leading_byte_width_4(b));
                    assert(c == vstd::utf8::codepoint_width_4(
                        suffix[0],
                        suffix[1],
                        suffix[2],
                        suffix[3],
                    ));
                }
                assert(c == scalar_at(src@, pre_i));
                lemma_scalar_at_is_scalar(src@, pre_i);
            }
            if char_len > 1 {
                multi_byte_chars.push(
                    MultiByteChar { pos: RelativeBytePos(pos), bytes: char_len as u8 },
                );
            }
            let ch = char::from_u32(c).unwrap();
            let w = match char_width(ch) {
                Some(w) => w,
                None => 0,
            };
            if w != 1 {
                non_narrow_chars.push(NonNarrowChar::new(RelativeBytePos(pos), w));
            }
        }
        proof {
            let l = utf8_len(src@[pre_i]);
            lemma_walk_concat(src@, start as int, pre_i, pre_i + l, delta);
            assert(lines_from(src@, pre_i + l, pre_i + l, delta) =~= Seq::empty());
            assert(mbcs_from(src@, pre_i + l, pre_i + l, delta) =~= Seq::empty());
            assert(nncs_from(src@, pre_i + l, pre_i + l, delta) =~= Seq::empty());
            assert(lines@ == old(lines)@ + lines_from(src@, start as int, pre_i + l, delta)) by {
                assert(lines@ =~= old(lines)@ + lines_from(src@, start as int, pre_i + l, delta));
            }
            assert(multi_byte_chars@ == old(multi_byte_chars)@ + mbcs_from(
                src@,
                start as int,
                pre_i + l,
                delta,
            )) by {
                assert(multi_byte_chars@ =~= old(multi_byte_chars)@ + mbcs_from(
                    src@,
                    start as int,
                    pre_i + l,
                    delta,
                ));
            }
            assert(non_narrow_chars@ == old(non_narrow_chars)@ + nncs_from(
                src@,
                start as int,
                pre_i + l,
                delta,
            )) by {
                assert(non_narrow_chars@ =~= old(non_narrow_chars)@ + nncs_from(
                    src@,
                    start as int,
                    pre_i + l,
                    delta,
                ));
            }
        }
        i += char_len;
    }
    i - end
}


/// The chunked fast path works on blocks of this many bytes at a time.
pub const CHUNK_SIZE: usize = 16;

/// The chunked fast path: examines the text in 16-byte chunks. A chunk of
/// printable ASCII contributes nothing; a chunk of ASCII whose only control
/// bytes are newlines has its line starts appended directly; any other
/// chunk falls back to the generic walk, carrying forward the bytes already
/// consumed by a character that straddled the previous chunk boundary.
/// It appends exactly the records of the generic walk over the whole text.
pub fn analyze_source_file_chunked(
    src: &[u8],
    lines: &mut Vec<RelativeBytePos>,
    multi_byte_chars: &mut Vec<MultiByteChar>,
    non_narrow_chars: &mut Vec<NonNarrowChar>,
)
    requires
        valid_utf8(src@),
        src@.len() <= u32::MAX,
    ensures
        final(lines)@ == old(lines)@ + lines_from(src@, 0, src@.len() as int, 0),
        final(multi_byte_chars)@ == old(multi_byte_chars)@ + mbcs_from(
            src@,
            0,
            src@.len() as int,
            0,
        ),
        final(non_narrow_chars)@ == old(non_narrow_chars)@ + nncs_from(
            src@,
            0,
            src@.len() as int,
            0,
        ),
{
    let src_len = src.len();
    let chunk_count = src_len / CHUNK_SIZE;
    proof {
        vstd::arithmetic::div_mod::lemma_fundamental_div_mod(src_len as int, CHUNK_SIZE as int);
    }

    // How many bytes at the start of the next chunk were already consumed by
    // a multi-byte character that straddled the previous chunk boundary.
    let mut intra_chunk_offset: usize = 0;

    let mut chunk_index: usize = 0;
    while chunk_index < chunk_count
        invariant
            valid_utf8(src@),
            src@.len() <= u32::MAX,
            src_len == src@.len(),
            chunk_count == src_len as int / CHUNK_SIZE as int,
            src_len as int == CHUNK_SIZE * (chunk_count as int) + (src_len as int) % (
            CHUNK_SIZE as int),
            0 <= (src_len as int) % (CHUNK_SIZE as int) < CHUNK_SIZE,
            chunk_index <= chunk_count,
            intra_chunk_offset <= 3,
            chunk_index * CHUNK_SIZE + intra_chunk_offset <= src@.len(),
            is_char_boundary(src@, chunk_index * CHUNK_SIZE + intra_chunk_offset),
            forall|k: int|
                chunk_index * CHUNK_SIZE <= k < chunk_index * CHUNK_SIZE + intra_chunk_offset
                    ==> is_continuation_byte(#[trigger] src@[k]),
            lines@ == old(lines)@ + lines_from(
                src@,
                0,
                chunk_index * CHUNK_SIZE + intra_chunk_offset,
                0,
            ),
            multi_byte_chars@ == old(multi_byte_chars)@ + mbcs_from(
                src@,
                0,
                chunk_index * CHUNK_SIZE + intra_chunk_offset,
                0,
            ),
            non_narrow_chars@ == old(non_narrow_chars)@ + nncs_from(
                src@,
                0,
                chunk_index * CHUNK_SIZE + intra_chunk_offset,
                0,
            ),
        decreases chunk_count - chunk_index,
    {
        proof {
            assert((chunk_index + 1) * CHUNK_SIZE <= chunk_count * CHUNK_SIZE) by (nonlinear_arith)
                requires
                    chunk_index + 1 <= chunk_count,
            ;
        }
        let base = chunk_index * CHUNK_SIZE;
        let ghost pos: int = base + intra_chunk_offset;

        // Does the chunk hold any byte that is part of a multi-byte
        // character?
        let mut all_ascii = true;
        let mut k: usize = 0;
        while k < CHUNK_SIZE
            invariant
                k <= CHUNK_SIZE,
                src_len == src@.len(),
                base + CHUNK_SIZE <= src@.len(),
                all_ascii <==> (forall|j: int| base <= j < base + k ==> #[trigger] src@[j] < 0x80),
            decreases CHUNK_SIZE - k,
        {
            if src[base + k] >= 0x80 {
                all_ascii = false;
            }
            k += 1;
        }

        if all_ascii {
            // A character that straddled the previous chunk boundary would
            // put continuation bytes at the front of this chunk.
            proof {
                if intra_chunk_offset > 0 {
                    assert(is_continuation_byte(src@[base as int]));
                    assert(false);
                }
            }

            // Any control characters in the chunk, and are they all
            // newlines?
            let mut has_control = false;
            let mut all_newline = true;
            k = 0;
            while k < CHUNK_SIZE
                invariant
                    k <= CHUNK_SIZE,
                    src_len == src@.len(),
                    base + CHUNK_SIZE <= src@.len(),
                    has_control <==> (exists|j: int|
                        base <= j < base + k && (#[trigger] src@[j] < 32 || src@[j] == 127)),
                    all_newline <==> (forall|j: int|
                        base <= j < base + k && (#[trigger] src@[j] < 32 || src@[j] == 127)
                            ==> src@[j] == 10),
                decreases CHUNK_SIZE - k,
            {
                let b = src[base + k];
                if b < 32 || b == 127 {
                    has_control = true;
                    if b != 10 {
                        all_newline = false;
                    }
                }
                k += 1;
            }

            if !has_control {
                // Nothing to record for this chunk.
                proof {
                    lemma_newline_ascii_run(src@, base as int, base + CHUNK_SIZE, 0);
                    lemma_nl_positions_empty(src@, base as int, base + CHUNK_SIZE, 0);
                    lemma_walk_concat(src@, 0, base as int, base + CHUNK_SIZE, 0);
                    assert(lines@ =~= old(lines)@ + lines_from(src@, 0, base + CHUNK_SIZE, 0));
                    assert(multi_byte_chars@ =~= old(multi_byte_chars)@ + mbcs_from(
                        src@,
                        0,
                        base + CHUNK_SIZE,
                        0,
                    ));
                    assert(non_narrow_chars@ =~= old(non_narrow_chars)@ + nncs_from(
                        src@,
                        0,
                        base + CHUNK_SIZE,
                        0,
                    ));
                }
                chunk_index += 1;
                continue ;
            }
            if all_newline {
                // All control characters are newlines: append their line
                // starts directly.
                k = 0;
                while k < CHUNK_SIZE
                    invariant
                        k <= CHUNK_SIZE,
                        src_len == src@.len(),
                        base + CHUNK_SIZE <= src@.len(),
                        src@.len() <= u32::MAX,
                        lines@ == old(lines)@ + lines_from(src@, 0, base as int, 0) + nl_positions(
                            src@,
                            base as int,
                            base + k,
                            0,
                        ),
                    decreases CHUNK_SIZE - k,
                {
                    let b = src[base + k];
                    proof {
                        lemma_nl_positions_snoc(src@, base as int, base + k, 0);
                    }
                    if b == 10 {
                        lines.push(RelativeBytePos((base + k + 1) as u32));
                    }
                    proof {
                        assert(lines@ =~= old(lines)@ + lines_from(src@, 0, base as int, 0)
                            + nl_positions(src@, base as int, base + k + 1, 0));
                    }
                    k += 1;
                }
                proof {
                    lemma_newline_ascii_run(src@, base as int, base + CHUNK_SIZE, 0);
                    lemma_walk_concat(src@, 0, base as int, base + CHUNK_SIZE, 0);
                    assert(lines@ =~= old(lines)@ + lines_from(src@, 0, base + CHUNK_SIZE, 0));
                    assert(multi_byte_chars@ =~= old(multi_byte_chars)@ + mbcs_from(
                        src@,
                        0,
                        base + CHUNK_SIZE,
                        0,
                    ));
                    assert(non_narrow_chars@ =~= old(non_narrow_chars)@ + nncs_from(
                        src@,
                        0,
                        base + CHUNK_SIZE,
                        0,
                    ));
                }
                chunk_index += 1;
                continue ;
            }
            // Some control characters are not newlines: fall through to the
            // generic walk for this chunk.
        }

        // The slow path: the generic walk over what is left of this chunk.
        let scan_start = base + intra_chunk_offset;
        let overflow = analyze_source_file_generic(
            src,
            scan_start,
            CHUNK_SIZE - intra_chunk_offset,
            scan_start as u32,
            lines,
            multi_byte_chars,
            non_narrow_chars,
        );
        proof {
            lemma_walk_concat(src@, 0, pos, base + CHUNK_SIZE + overflow, 0);
            assert(lines@ =~= old(lines)@ + lines_from(src@, 0, base + CHUNK_SIZE + overflow, 0));
            assert(multi_byte_chars@ =~= old(multi_byte_chars)@ + mbcs_from(
                src@,
                0,
                base + CHUNK_SIZE + overflow,
                0,
            ));
            assert(non_narrow_chars@ =~= old(non_narrow_chars)@ + nncs_from(
                src@,
                0,
                base + CHUNK_SIZE + overflow,
                0,
            ));
        }
        intra_chunk_offset = overflow;
        chunk_index += 1;
    }

    // There might still be a tail shorter than one chunk left to analyze.
    proof {
        assert(chunk_count * CHUNK_SIZE == CHUNK_SIZE * (chunk_count as int));
    }
    let tail_start = chunk_count * CHUNK_SIZE + intra_chunk_offset;
    if tail_start < src_len {
        let overflow = analyze_source_file_generic(
            src,
            tail_start,
            src_len - tail_start,
            tail_start as u32,
            lines,
            multi_byte_chars,
            non_narrow_chars,
        );
        proof {
            lemma_walk_concat(src@, 0, tail_start as int, src@.len() as int, 0);
            assert(lines@ =~= old(lines)@ + lines_from(src@, 0, src@.len() as int, 0));
            assert(multi_byte_chars@ =~= old(multi_byte_chars)@ + mbcs_from(
                src@,
                0,
                src@.len() as int,
                0,
            ));
            assert(non_narrow_chars@ =~= old(non_narrow_chars)@ + nncs_from(
                src@,
                0,
                src@.len() as int,
                0,
            ));
        }
    } else {
        proof {
            assert(tail_start == src@.len());
            assert(lines@ =~= old(lines)@ + lines_from(src@, 0, src@.len() as int, 0));
            assert(multi_byte_chars@ =~= old(multi_byte_chars)@ + mbcs_from(
                src@,
                0,
                src@.len() as int,
                0,
            ));
            assert(non_narrow_chars@ =~= old(non_narrow_chars)@ + nncs_from(
                src@,
                0,
                src@.len() as int,
                0,
            ));
        }
    }
}


/// Finds all newlines, multi-byte characters, and non-narrow characters in
/// a source file's text, using the chunked fast path.
///
/// The walk optimistically registers a new line after each newline it
/// encounters; if that point is already outside the text, the entry is
/// removed again, so the table never holds the text's exact length.
pub fn analyze_source_file(src: &str) -> (r: (
    Vec<RelativeBytePos>,
    Vec<MultiByteChar>,
    Vec<NonNarrowChar>,
))
    requires
        src.spec_bytes().len() <= u32::MAX,
    ensures
        r.0@ == analyzed_lines(src.spec_bytes()),
        r.1@ == analyzed_mbcs(src.spec_bytes()),
        r.2@ == analyzed_nncs(src.spec_bytes()),
{
    proof {
        broadcast use vstd::utf8::encode_utf8_valid_utf8;

    }
    let bytes = src.as_bytes();
    let mut lines: Vec<RelativeBytePos> = Vec::new();
    lines.push(RelativeBytePos(0));
    let mut multi_byte_chars: Vec<MultiByteChar> = Vec::new();
    let mut non_narrow_chars: Vec<NonNarrowChar> = Vec::new();

    analyze_source_file_chunked(bytes, &mut lines, &mut multi_byte_chars, &mut non_narrow_chars);
    proof {
        assert(lines@ =~= raw_lines(bytes@));
        assert(multi_byte_chars@ =~= analyzed_mbcs(bytes@));
        assert(non_narrow_chars@ =~= analyzed_nncs(bytes@));
    }

    // Drop a final line start that sits exactly at end-of-file.
    let n = lines.len();
    let last = lines[n - 1];
    if last.0 == bytes.len() as u32 {
        lines.pop();
    }
    proof {
        assert(lines@ =~= analyzed_lines(bytes@));
    }
    (lines, multi_byte_chars, non_narrow_chars)
}


/// The platform fallback: the generic walk alone over the whole input,
/// with output offset zero. Its contract is the same as that of
/// [`analyze_source_file`], which scans with the chunked fast path: the two
/// algorithms record identical line-start, multi-byte, and non-narrow
/// sequences for every text.
pub fn analyze_source_file_fallback(src: &str) -> (r: (
    Vec<RelativeBytePos>,
    Vec<MultiByteChar>,
    Vec<NonNarrowChar>,
))
    requires
        src.spec_bytes().len() <= u32::MAX,
    ensures
        r.0@ == analyzed_lines(src.spec_bytes()),
        r.1@ == analyzed_mbcs(src.spec_bytes()),
        r.2@ == analyzed_nncs(src.spec_bytes()),
{
    proof {
        broadcast use vstd::utf8::encode_utf8_valid_utf8;

    }
    let bytes = src.as_bytes();
    let mut lines: Vec<RelativeBytePos> = Vec::new();
    lines.push(RelativeBytePos(0));
    let mut multi_byte_chars: Vec<MultiByteChar> = Vec::new();
    let mut non_narrow_chars: Vec<NonNarrowChar> = Vec::new();

    let n = bytes.len();
    analyze_source_file_generic(
        bytes,
        0,
        n,
        0,
        &mut lines,
        &mut multi_byte_chars,
        &mut non_narrow_chars,
    );
    proof {
        assert(lines@ =~= raw_lines(bytes@));
        assert(multi_byte_chars@ =~= analyzed_mbcs(bytes@));
        assert(non_narrow_chars@ =~= analyzed_nncs(bytes@));
    }

    // Drop a final line start that sits exactly at end-of-file.
    let len = lines.len();
    let last = lines[len - 1];
    if last.0 == n as u32 {
        lines.pop();
    }
    proof {
        assert(lines@ =~= analyzed_lines(bytes@));
    }
    (lines, multi_byte_chars, non_narrow_chars)
}

} // verus!
