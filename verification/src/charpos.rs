//! Byte-position to character-position arithmetic over the derived tables.
//!
//! A character position counts Unicode scalar values, not bytes. It is
//! recovered from a byte position by subtracting, for every multi-byte
//! character that starts before it, the extra bytes beyond the first. The
//! lemmas here bound those corrections: they never exceed the byte position
//! itself, they grow by at most the distance between two positions, and the
//! non-narrow records falling between two positions never outnumber the
//! characters there.

use vstd::prelude::*;

use vstd::utf8::{decode_utf8, is_char_boundary, valid_utf8};

use crate::chars::{MultiByteChar, NonNarrowChar};
use crate::scan_model::{
    analyzed_mbcs, mbcs_bytes_valid, mbcs_from, mbcs_sorted, nncs_sorted, pos_outside_mbc_spans,
    utf8_len, lemma_boundary_step, lemma_walk_table_props,
};

verus! {

/// The extra encoded bytes (beyond one per character) of every multi-byte
/// character that starts before `bpos`.
pub open spec fn extra_bytes_before(table: Seq<MultiByteChar>, bpos: int) -> int
    decreases table.len(),
{
    if table.len() == 0 {
        0
    } else {
        (if table[0].pos.0 < bpos {
            table[0].bytes - 1
        } else {
            0
        }) + extra_bytes_before(table.drop_first(), bpos)
    }
}

/// The character position of byte position `bpos`: the count of characters
/// that start before it. That this subtraction really counts the encoded
/// characters is proved in [`lemma_char_pos_counts_chars`].
pub open spec fn char_pos_of(table: Seq<MultiByteChar>, bpos: int) -> int {
    bpos - extra_bytes_before(table, bpos)
}

/// How many non-narrow records lie strictly before position `x`.
pub open spec fn nn_count_before(table: Seq<NonNarrowChar>, x: int) -> int
    decreases table.len(),
{
    if table.len() == 0 {
        0
    } else {
        (if table[0].spec_pos() < x {
            1int
        } else {
            0int
        }) + nn_count_before(table.drop_first(), x)
    }
}

/// The summed rendered widths of the non-narrow records strictly before
/// position `x`.
pub open spec fn nn_width_before(table: Seq<NonNarrowChar>, x: int) -> int
    decreases table.len(),
{
    if table.len() == 0 {
        0
    } else {
        (if table[0].spec_pos() < x {
            table[0].spec_width()
        } else {
            0
        }) + nn_width_before(table.drop_first(), x)
    }
}

/// The corrections for a position outside every span are bounded by the
/// distance back to any floor below all recorded positions.
pub proof fn lemma_extra_bytes_bound(table: Seq<MultiByteChar>, bpos: int, lo: int)
    requires
        mbcs_sorted(table),
        mbcs_bytes_valid(table),
        pos_outside_mbc_spans(table, bpos),
        forall|a: int| 0 <= a < table.len() ==> lo <= (#[trigger] table[a]).pos.0,
    ensures
        0 <= extra_bytes_before(table, bpos) <= (if bpos - lo >= 0 {
            bpos - lo
        } else {
            0
        }),
    decreases table.len(),
{
    if table.len() > 0 {
        let q = table[0].pos.0 as int;
        let m = table[0].bytes as int;
        let tail = table.drop_first();
        assert(forall|a: int| 0 <= a < tail.len() ==> tail[a] == table[a + 1]);
        if q < bpos {
            assert(q + m <= bpos);
            lemma_extra_bytes_bound(tail, bpos, q + m);
        } else {
            lemma_extra_bytes_bound(tail, bpos, q);
        }
    }
}

/// Between two positions that both sit outside every span, the corrections
/// grow by strictly less than the distance: every character, however wide,
/// still counts as at least one character.
pub proof fn lemma_extra_bytes_window(table: Seq<MultiByteChar>, p1: int, p2: int)
    requires
        mbcs_sorted(table),
        mbcs_bytes_valid(table),
        pos_outside_mbc_spans(table, p2),
        p1 <= p2,
    ensures
        extra_bytes_before(table, p1) <= extra_bytes_before(table, p2),
        p1 < p2 ==> extra_bytes_before(table, p2) - extra_bytes_before(table, p1) <= p2 - p1 - 1,
    decreases table.len(),
{
    if table.len() > 0 {
        let q = table[0].pos.0 as int;
        let m = table[0].bytes as int;
        let tail = table.drop_first();
        assert(forall|a: int| 0 <= a < tail.len() ==> tail[a] == table[a + 1]);
        if q < p1 {
            lemma_extra_bytes_window(tail, p1, p2);
        } else if q < p2 {
            // The head span lies inside the window and ends at or before
            // `p2`; everything after it starts past the span.
            assert(q + m <= p2);
            lemma_extra_bytes_bound(tail, p1, q + m);
            lemma_extra_bytes_bound(tail, p2, q + m);
        } else {
            lemma_extra_bytes_window(tail, p1, p2);
        }
    }
}

/// Byte-to-char conversion is monotonic non-decreasing and never negative.
///
/// For any two byte positions in range that do not split a recorded
/// multi-byte character, the earlier one converts to a character position
/// that is non-negative and no later than the other's.
pub proof fn lemma_char_pos_monotonic(table: Seq<MultiByteChar>, p1: int, p2: int)
    requires
        mbcs_sorted(table),
        mbcs_bytes_valid(table),
        pos_outside_mbc_spans(table, p1),
        pos_outside_mbc_spans(table, p2),
        0 <= p1 <= p2,
    ensures
        0 <= char_pos_of(table, p1) <= char_pos_of(table, p2),
        p1 < p2 ==> char_pos_of(table, p1) < char_pos_of(table, p2),
{
    lemma_extra_bytes_bound(table, p1, 0);
    lemma_extra_bytes_window(table, p1, p2);
}

/// A table whose records all start at or past `x` contributes nothing
/// before `x`.
pub proof fn lemma_nn_count_zero(table: Seq<NonNarrowChar>, x: int)
    requires
        forall|a: int| 0 <= a < table.len() ==> x <= (#[trigger] table[a]).spec_pos(),
    ensures
        nn_count_before(table, x) == 0,
        nn_width_before(table, x) == 0,
    decreases table.len(),
{
    if table.len() > 0 {
        let tail = table.drop_first();
        assert(forall|a: int| 0 <= a < tail.len() ==> tail[a] == table[a + 1]);
        lemma_nn_count_zero(tail, x);
    }
}

/// Counting is monotone in the position.
pub proof fn lemma_nn_count_monotonic(table: Seq<NonNarrowChar>, x1: int, x2: int)
    requires
        x1 <= x2,
    ensures
        nn_count_before(table, x1) <= nn_count_before(table, x2),
        nn_width_before(table, x1) <= nn_width_before(table, x2),
    decreases table.len(),
{
    if table.len() > 0 {
        lemma_nn_count_monotonic(table.drop_first(), x1, x2);
    }
}

/// Anchored form of the counting argument: if every record starts at or
/// past `a`, the records before `hi` fit among the characters from `a` to
/// `hi`, each record consuming at least the one character it starts.
proof fn lemma_nn_count_anchored(
    nncs: Seq<NonNarrowChar>,
    mbcs: Seq<MultiByteChar>,
    a: int,
    hi: int,
)
    requires
        nncs_sorted(nncs),
        mbcs_sorted(mbcs),
        mbcs_bytes_valid(mbcs),
        forall|k: int|
            0 <= k < nncs.len() ==> pos_outside_mbc_spans(
                mbcs,
                (#[trigger] nncs[k]).spec_pos() as int,
            ),
        forall|k: int| 0 <= k < nncs.len() ==> a <= (#[trigger] nncs[k]).spec_pos(),
        pos_outside_mbc_spans(mbcs, a),
        pos_outside_mbc_spans(mbcs, hi),
        0 <= a <= hi,
    ensures
        nn_count_before(nncs, hi) <= char_pos_of(mbcs, hi) - char_pos_of(mbcs, a),
    decreases nncs.len(),
{
    lemma_char_pos_monotonic(mbcs, a, hi);
    if nncs.len() > 0 {
        let p = nncs[0].spec_pos() as int;
        let tail = nncs.drop_first();
        assert(forall|k: int| 0 <= k < tail.len() ==> tail[k] == nncs[k + 1]);
        if p >= hi {
            lemma_nn_count_zero(nncs, hi);
        } else {
            // The head consumes the character at `p`; later records start
            // strictly after it.
            lemma_char_pos_monotonic(mbcs, a, p);
            lemma_char_pos_monotonic(mbcs, p, hi);
            if tail.len() == 0 {
                lemma_nn_count_zero(tail, hi);
            } else {
                let q = tail[0].spec_pos() as int;
                lemma_char_pos_monotonic(mbcs, p, q);
                if q <= hi {
                    lemma_nn_count_anchored(tail, mbcs, q, hi);
                } else {
                    lemma_nn_count_zero(tail, hi);
                }
            }
        }
    }
}

/// Every non-narrow record is one character, so the records between two
/// positions never outnumber the characters between them.
pub proof fn lemma_nn_count_le_chars(
    nncs: Seq<NonNarrowChar>,
    mbcs: Seq<MultiByteChar>,
    lo: int,
    hi: int,
)
    requires
        nncs_sorted(nncs),
        mbcs_sorted(mbcs),
        mbcs_bytes_valid(mbcs),
        forall|a: int|
            0 <= a < nncs.len() ==> pos_outside_mbc_spans(
                mbcs,
                (#[trigger] nncs[a]).spec_pos() as int,
            ),
        pos_outside_mbc_spans(mbcs, lo),
        pos_outside_mbc_spans(mbcs, hi),
        0 <= lo <= hi,
    ensures
        nn_count_before(nncs, hi) - nn_count_before(nncs, lo) <= char_pos_of(mbcs, hi)
            - char_pos_of(mbcs, lo),
    decreases nncs.len(),
{
    lemma_char_pos_monotonic(mbcs, lo, hi);
    if nncs.len() > 0 {
        let p = nncs[0].spec_pos() as int;
        let tail = nncs.drop_first();
        assert(forall|a: int| 0 <= a < tail.len() ==> tail[a] == nncs[a + 1]);
        if p < lo {
            // Counted on both sides or neither: the head cancels.
            lemma_nn_count_le_chars(tail, mbcs, lo, hi);
        } else if p < hi {
            // Nothing before `lo`; anchor the rest of the count at the head.
            lemma_nn_count_zero(nncs, lo);
            lemma_char_pos_monotonic(mbcs, lo, p);
            lemma_char_pos_monotonic(mbcs, p, hi);
            if tail.len() == 0 {
                lemma_nn_count_zero(tail, hi);
            } else {
                let q = tail[0].spec_pos() as int;
                lemma_char_pos_monotonic(mbcs, p, q);
                if q <= hi {
                    lemma_nn_count_anchored(tail, mbcs, q, hi);
                } else {
                    lemma_nn_count_zero(tail, hi);
                }
            }
        } else {
            // The head and, by sortedness, every record start at or past
            // `hi`: nothing is counted.
            lemma_nn_count_zero(nncs, lo);
            lemma_nn_count_zero(nncs, hi);
        }
    }
}


/// At a partition index — everything before it starts below `x`, everything
/// from it on starts at or above `x` — the count of records before `x` is
/// exactly that index.
pub proof fn lemma_nn_count_is_partition(table: Seq<NonNarrowChar>, x: int, idx: int)
    requires
        0 <= idx <= table.len(),
        forall|j: int| 0 <= j < idx ==> (#[trigger] table[j]).spec_pos() < x,
        forall|j: int| idx <= j < table.len() ==> x <= (#[trigger] table[j]).spec_pos(),
    ensures
        nn_count_before(table, x) == idx,
    decreases table.len(),
{
    if idx == 0 {
        lemma_nn_count_zero(table, x);
    } else {
        let tail = table.drop_first();
        assert(forall|j: int| 0 <= j < tail.len() ==> tail[j] == table[j + 1]);
        lemma_nn_count_is_partition(tail, x, idx - 1);
    }
}

/// Dropping a prefix of records that all start below both positions leaves
/// the window sums unchanged: those records are counted on both sides.
pub proof fn lemma_nn_skip_cancel(table: Seq<NonNarrowChar>, k: int, lo: int, hi: int)
    requires
        0 <= k <= table.len(),
        lo <= hi,
        forall|j: int| 0 <= j < k ==> (#[trigger] table[j]).spec_pos() < lo,
    ensures
        nn_count_before(table, hi) - nn_count_before(table, lo) == nn_count_before(
            table.skip(k),
            hi,
        ) - nn_count_before(table.skip(k), lo),
        nn_width_before(table, hi) - nn_width_before(table, lo) == nn_width_before(
            table.skip(k),
            hi,
        ) - nn_width_before(table.skip(k), lo),
    decreases k,
{
    if k == 0 {
        assert(table.skip(0) =~= table);
    } else {
        let tail = table.drop_first();
        assert(forall|j: int| 0 <= j < tail.len() ==> tail[j] == table[j + 1]);
        lemma_nn_skip_cancel(tail, k - 1, lo, hi);
        assert(tail.skip(k - 1) =~= table.skip(k));
    }
}

/// Between two positions, the summed widths stay within four cells per
/// counted record, and both window sums are non-negative.
pub proof fn lemma_nn_window_bounds(table: Seq<NonNarrowChar>, lo: int, hi: int)
    requires
        lo <= hi,
    ensures
        0 <= nn_count_before(table, hi) - nn_count_before(table, lo),
        0 <= nn_width_before(table, hi) - nn_width_before(table, lo) <= 4 * (nn_count_before(
            table,
            hi,
        ) - nn_count_before(table, lo)),
    decreases table.len(),
{
    if table.len() > 0 {
        lemma_nn_window_bounds(table.drop_first(), lo, hi);
    }
}


/// In a strictly sorted table every record's position is at least its
/// index.
pub proof fn lemma_nncs_pos_lower(table: Seq<NonNarrowChar>, k: int)
    requires
        nncs_sorted(table),
        0 <= k < table.len(),
    ensures
        k <= (#[trigger] table[k]).spec_pos(),
    decreases k,
{
    if k > 0 {
        lemma_nncs_pos_lower(table, k - 1);
    }
}

/// A strictly sorted table whose positions all lie below `total` has at
/// most `total` records.
pub proof fn lemma_nncs_len_bound(table: Seq<NonNarrowChar>, total: int)
    requires
        nncs_sorted(table),
        forall|a: int| 0 <= a < table.len() ==> (#[trigger] table[a]).spec_pos() < total,
        0 <= total,
    ensures
        table.len() <= total,
{
    if table.len() > 0 {
        lemma_nncs_pos_lower(table, table.len() - 1);
    }
}


/// Over the walk of `[i, n)`, the corrections recorded before a boundary
/// `x` account exactly for the bytes that are not first bytes: the byte
/// distance minus the corrections is the number of characters encoded in
/// `[i, x)`.
proof fn lemma_walk_char_count(s: Seq<u8>, i: int, x: int, n: int)
    requires
        valid_utf8(s),
        is_char_boundary(s, i),
        is_char_boundary(s, x),
        0 <= i <= x <= n <= s.len(),
        s.len() <= u32::MAX,
    ensures
        extra_bytes_before(mbcs_from(s, i, n, 0), x) == (x - i) - decode_utf8(
            s.subrange(i, x),
        ).len(),
    decreases x - i,
{
    broadcast use vstd::utf8::group_utf8_lib;

    let table = mbcs_from(s, i, n, 0);
    lemma_walk_table_props(s, i, n, 0);
    if i == x {
        assert(pos_outside_mbc_spans(table, x));
        lemma_extra_bytes_bound(table, x, x);
        assert(s.subrange(i, x) =~= Seq::empty());
    } else {
        lemma_boundary_step(s, i);
        let l = utf8_len(s[i]);
        assert(i + l <= x);
        lemma_walk_char_count(s, i + l, x, n);
        // The walk's first record, if any, stands for the character at `i`.
        let rest = mbcs_from(s, i + l, n, 0);
        if l > 1 {
            assert(table.drop_first() =~= rest);
            assert(table[0].pos.0 == i && table[0].bytes == l);
        } else {
            assert(table =~= rest);
        }
        // One character is decoded at `i` and the remainder after it.
        let sub = s.subrange(i, x);
        let pre = s.subrange(0, x);
        vstd::utf8::valid_utf8_split(s, x);
        vstd::utf8::is_char_boundary_iff_not_is_continuation_byte(s, i);
        assert(pre[i] == s[i]);
        vstd::utf8::is_char_boundary_iff_not_is_continuation_byte(pre, i);
        vstd::utf8::valid_utf8_split(pre, i);
        assert(sub =~= pre.subrange(i, x));
        assert(valid_utf8(sub));
        assert(sub.len() > 0);
        assert(sub[0] == s[i]);
        assert(vstd::utf8::length_of_first_codepoint(sub) == l);
        assert(vstd::utf8::length_of_first_scalar(sub) == l);
        assert(vstd::utf8::pop_first_scalar(sub) =~= s.subrange(i + l, x));
        assert(decode_utf8(sub).len() == 1 + decode_utf8(s.subrange(i + l, x)).len());
    }
}

/// What a character position means: for a byte position on a character
/// boundary, the position that [`char_pos_of`] computes over the analyzed
/// multi-byte table is the number of characters the text encodes before
/// that byte.
pub proof fn lemma_char_pos_counts_chars(s: Seq<u8>, p: int)
    requires
        valid_utf8(s),
        is_char_boundary(s, p),
        0 <= p <= s.len(),
        s.len() <= u32::MAX,
    ensures
        char_pos_of(analyzed_mbcs(s), p) == decode_utf8(s.subrange(0, p)).len(),
{
    vstd::utf8::is_char_boundary_start_end_of_seq(s);
    lemma_walk_char_count(s, 0, p, s.len() as int);
}

} // verus!
