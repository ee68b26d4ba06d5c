//! The source-file record: an immutable snapshot of one file's text and its
//! derived position tables, with the offset-translation queries.

use std::ops::RangeInclusive;
use vstd::prelude::*;
use vstd::string::StringSliceAdditionalSpecFns;
use vstd::utf8::{encode_utf8, is_char_boundary, valid_utf8};

use crate::analyze::analyze_source_file;
use crate::charpos::{
    char_pos_of, extra_bytes_before, nn_count_before, nn_width_before, lemma_char_pos_monotonic,
    lemma_extra_bytes_bound, lemma_nn_count_le_chars, lemma_nn_count_monotonic,
    lemma_nn_count_is_partition, lemma_nn_count_zero, lemma_nn_skip_cancel, lemma_nn_window_bounds,
    lemma_nncs_len_bound,
};
use crate::chars::{MultiByteChar, NonNarrowChar};
use crate::hashes::{anon_hash_str, fx_hash_bytes, SourceFileHash, SourceFileHashAlgorithm};
use crate::pos::{BytePos, CharPos, RelativeBytePos};
use crate::scan_model::{
    analyzed_lines, analyzed_mbcs, analyzed_nncs, lines_sorted, mbcs_bytes_valid, mbcs_sorted,
    nncs_sorted, pos_outside_mbc_spans, lemma_analyzed_tables_wf,
};

verus! {

/// How a file name should be rendered for output.
#[derive(Clone, Copy, Debug, Default, PartialEq, Eq, Hash, Structural)]
pub enum FileNameDisplayPreference {
    /// Display the path after the application of rewrite rules. This is
    /// appropriate for paths that get embedded into build artifacts.
    Remapped,
    /// Display the path before the application of rewrite rules. This is
    /// appropriate for use in user-facing output such as diagnostics.
    #[default]
    Local,
    /// Display only the filename, to reduce the verbosity of the output.
    Short,
}

/// The name of a source file: a real path, or an anonymous buffer
/// identified by a hash of its contents.
#[derive(Clone, Debug, PartialEq, Eq, Hash)]
pub enum FileName {
    Real(String),
    Anon(u64),
}

impl From<String> for FileName {
    fn from(p: String) -> (r: Self) {
        FileName::Real(p)
    }
}

impl vstd::std_specs::convert::FromSpecImpl<String> for FileName {
    open spec fn obeys_from_spec() -> bool {
        true
    }

    open spec fn from_spec(p: String) -> Self {
        FileName::Real(p)
    }
}

impl FileName {
    /// Displays the filename.
    pub fn display(&self, pref: FileNameDisplayPreference) -> (r: FileNameDisplay<'_>)
        ensures
            r.inner == self,
            r.pref == pref,
    {
        FileNameDisplay { inner: self, pref }
    }

    /// A name for source that does not originate from a file, derived by
    /// hashing the source text itself.
    pub fn anon_source_code(src: &str) -> (r: Self)
        ensures
            r is Anon,
    {
        FileName::Anon(anon_hash_str(src))
    }
}

/// A file name paired with the preference it should be rendered under.
pub struct FileNameDisplay<'a> {
    pub inner: &'a FileName,
    pub pref: FileNameDisplayPreference,
}

impl<'a> FileNameDisplay<'a> {
    /// The rendered name: the path itself for a real file, and an
    /// angle-bracketed marker for an anonymous buffer.
    pub fn to_display_string(&self) -> (r: String)
        ensures
            r@ == match *self.inner {
                FileName::Real(name) => name@,
                FileName::Anon(_) => "<anon>"@,
            },
    {
        match self.inner {
            FileName::Real(name) => name.clone(),
            FileName::Anon(_) => "<anon>".to_owned(),
        }
    }
}

/// A stable identity for a source file, derived from its name; used for
/// cross-run identification, never for position math.
#[derive(Clone, Copy, Debug, Default, PartialEq, Eq, PartialOrd, Ord, Hash, Structural)]
pub struct StableSourceFileId(pub u64);

/// An unambiguous byte encoding of a file name, for hashing: a tag byte for
/// the variant, then the name's text or the anonymous id.
pub open spec fn spec_filename_encoding(f: FileName) -> Seq<u8> {
    match f {
        FileName::Real(p) => seq![0u8] + encode_utf8(p@),
        FileName::Anon(h) => seq![1u8] + vstd::bytes::spec_u64_to_le_bytes(h),
    }
}

/// Serializes a file name to the byte form that its stable id hashes.
fn filename_encoding(filename: &FileName) -> (r: Vec<u8>)
    ensures
        r@ == spec_filename_encoding(*filename),
{
    let mut out: Vec<u8> = Vec::new();
    match filename {
        FileName::Real(p) => {
            out.push(0);
            let bytes = p.as_str().as_bytes();
            let n = bytes.len();
            let mut i: usize = 0;
            while i < n
                invariant
                    i <= n,
                    n == bytes@.len(),
                    out@ == seq![0u8] + bytes@.subrange(0, i as int),
                decreases n - i,
            {
                out.push(bytes[i]);
                proof {
                    assert(out@ =~= seq![0u8] + bytes@.subrange(0, i + 1));
                }
                i += 1;
            }
            proof {
                assert(bytes@.subrange(0, n as int) =~= bytes@);
            }
        },
        FileName::Anon(h) => {
            out.push(1);
            let mut le = vstd::bytes::u64_to_le_bytes(*h);
            out.append(&mut le);
        },
    }
    out
}

impl StableSourceFileId {
    /// The stable id of a file of the crate being compiled, derived from
    /// its name alone.
    pub fn from_filename_in_current_crate(filename: &FileName) -> Self {
        Self::from_filename_and_stable_crate_id(filename)
    }

    fn from_filename_and_stable_crate_id(filename: &FileName) -> Self {
        let encoded = filename_encoding(filename);
        StableSourceFileId(fx_hash_bytes(encoded.as_slice()))
    }
}

/// Construction failed because the source text is longer than the 32-bit
/// position range can address.
#[derive(Debug)]
pub struct OffsetOverflowError;

/// A single source file: its name, optionally its text, and the three
/// derived position tables, frozen at construction.
#[derive(Clone, Debug)]
pub struct SourceFile {
    /// The name of the file that the source came from.
    pub name: FileName,
    /// The complete source text, unless it has been evicted from memory.
    pub src: Option<String>,
    /// The source text's hash.
    pub src_hash: SourceFileHash,
    /// The start position of this file in the combined coordinate space.
    pub start_pos: BytePos,
    /// The byte length of this source.
    pub source_len: RelativeBytePos,
    /// Locations of line beginnings in the source text.
    pub lines: Vec<RelativeBytePos>,
    /// Locations of multi-byte characters in the source text.
    pub multibyte_chars: Vec<MultiByteChar>,
    /// Width of characters that are not narrow in the source text.
    pub non_narrow_chars: Vec<NonNarrowChar>,
    /// A hash of the filename, for identifying the file across runs.
    pub stable_id: StableSourceFileId,
}

impl SourceFile {
    /// The structural invariants of the derived tables: the line table is
    /// strictly increasing, starts at zero, and never holds the file
    /// length; multi-byte records are sorted with disjoint in-bounds spans;
    /// non-narrow records are sorted and in bounds; and no recorded line
    /// start or non-narrow position falls strictly inside a multi-byte
    /// character's span.
    pub open spec fn tables_wf(self) -> bool {
        let total = self.source_len.0 as int;
        &&& lines_sorted(self.lines@)
        &&& (self.lines@.len() > 0 ==> self.lines@[0].0 == 0)
        &&& (forall|a: int| 0 <= a < self.lines@.len() ==> (#[trigger] self.lines@[a]).0 < total)
        &&& (forall|a: int|
            0 <= a < self.lines@.len() ==> pos_outside_mbc_spans(
                self.multibyte_chars@,
                (#[trigger] self.lines@[a]).0 as int,
            ))
        &&& mbcs_sorted(self.multibyte_chars@)
        &&& mbcs_bytes_valid(self.multibyte_chars@)
        &&& (forall|a: int|
            0 <= a < self.multibyte_chars@.len() ==> (#[trigger] self.multibyte_chars@[a]).pos.0
                + self.multibyte_chars@[a].bytes <= total)
        &&& nncs_sorted(self.non_narrow_chars@)
        &&& (forall|a: int|
            0 <= a < self.non_narrow_chars@.len() ==> (#[trigger] self.non_narrow_chars@[a]).spec_pos()
                < total)
        &&& (forall|a: int|
            0 <= a < self.non_narrow_chars@.len() ==> pos_outside_mbc_spans(
                self.multibyte_chars@,
                (#[trigger] self.non_narrow_chars@[a]).spec_pos() as int,
            ))
    }

    /// When the text is still present, the tables are exactly what scanning
    /// it produces, and every line start is a character boundary of it.
    pub open spec fn text_wf(self) -> bool {
        self.src matches Some(s) ==> {
            let bytes = encode_utf8(s@);
            &&& bytes.len() == self.source_len.0
            &&& self.lines@ == analyzed_lines(bytes)
            &&& self.multibyte_chars@ == analyzed_mbcs(bytes)
            &&& self.non_narrow_chars@ == analyzed_nncs(bytes)
            &&& forall|a: int|
                0 <= a < self.lines@.len() ==> is_char_boundary(
                    bytes,
                    (#[trigger] self.lines@[a]).0 as int,
                )
        }
    }

    /// The record's invariant: constructors establish it and queries rely
    /// on it.
    pub open spec fn wf(self) -> bool {
        &&& self.tables_wf()
        &&& self.text_wf()
    }

    /// Builds the record for one file: hashes the text, scans it once for
    /// the three derived tables, and freezes everything. Fails exactly when
    /// the text is longer than the 32-bit position range can address.
    pub fn new(name: FileName, src: String, hash_kind: SourceFileHashAlgorithm) -> (r: Result<
        SourceFile,
        OffsetOverflowError,
    >)
        ensures
            match r {
                Ok(sf) => {
                    &&& encode_utf8(src@).len() <= u32::MAX
                    &&& sf.wf()
                    &&& sf.name == name
                    &&& sf.src matches Some(s) && s@ == src@
                    &&& sf.src_hash.kind == hash_kind
                    &&& sf.src_hash.spec_value() == Seq::new(32, |i: int| 0u8)
                    &&& sf.start_pos.0 == 0
                    &&& sf.source_len.0 == encode_utf8(src@).len()
                    &&& sf.lines@ == analyzed_lines(encode_utf8(src@))
                    &&& sf.multibyte_chars@ == analyzed_mbcs(encode_utf8(src@))
                    &&& sf.non_narrow_chars@ == analyzed_nncs(encode_utf8(src@))
                },
                Err(_) => encode_utf8(src@).len() > u32::MAX,
            },
    {
        // Compute the file hash before anything else.
        let src_hash = SourceFileHash::new(hash_kind, src.as_str());
        let stable_id = StableSourceFileId::from_filename_in_current_crate(&name);

        let source_len = src.as_str().as_bytes().len();
        if source_len > u32::MAX as usize {
            return Err(OffsetOverflowError);
        }

        let (lines, multibyte_chars, non_narrow_chars) = analyze_source_file(src.as_str());

        proof {
            broadcast use vstd::utf8::encode_utf8_valid_utf8;

            lemma_analyzed_tables_wf(encode_utf8(src@));
        }

        Ok(
            SourceFile {
                name,
                src: Some(src),
                src_hash,
                start_pos: BytePos(0),
                source_len: RelativeBytePos(source_len as u32),
                lines,
                multibyte_chars,
                non_narrow_chars,
                stable_id,
            },
        )
    }

    /// The pre-computed table of line beginnings.
    pub fn lines(&self) -> (r: &[RelativeBytePos])
        ensures
            r@ == self.lines@,
    {
        self.lines.as_slice()
    }

    /// How many lines the table records.
    pub fn count_lines(&self) -> (r: usize)
        ensures
            r == self.lines@.len(),
    {
        self.lines.len()
    }

    /// The absolute position that `rel` converts to: the file's start
    /// offset plus the file-relative offset.
    pub open spec fn spec_absolute_position(self, rel: int) -> int {
        self.start_pos.0 + rel
    }

    /// The file-relative position that the absolute position `abs` converts
    /// to.
    pub open spec fn spec_relative_position(self, abs: int) -> int {
        abs - self.start_pos.0
    }

    pub fn absolute_position(&self, pos: RelativeBytePos) -> (r: BytePos)
        requires
            pos.0 + self.start_pos.0 <= u32::MAX,
        ensures
            r.0 == self.spec_absolute_position(pos.0 as int),
    {
        BytePos(pos.0 + self.start_pos.0)
    }

    pub fn relative_position(&self, pos: BytePos) -> (r: RelativeBytePos)
        requires
            pos.0 >= self.start_pos.0,
        ensures
            r.0 == self.spec_relative_position(pos.0 as int),
    {
        RelativeBytePos(pos.0 - self.start_pos.0)
    }

    /// The absolute position one past the file's last byte.
    pub fn end_position(&self) -> (r: BytePos)
        requires
            self.source_len.0 + self.start_pos.0 <= u32::MAX,
        ensures
            r.0 == self.spec_absolute_position(self.source_len.0 as int),
    {
        self.absolute_position(self.source_len)
    }

    /// Round trip: converting an absolute position to file-relative and
    /// back yields the original, for any absolute position at or past the
    /// file's start.
    pub proof fn lemma_position_round_trip(self, x: int)
        requires
            self.start_pos.0 <= x,
        ensures
            self.spec_absolute_position(self.spec_relative_position(x)) == x,
    {
    }
}


/// The index of the line containing byte position `pos`: the greatest index
/// whose recorded start is at or before `pos`, if any.
pub open spec fn line_index_of(table: Seq<RelativeBytePos>, pos: int) -> Option<int>
    decreases table.len(),
{
    if table.len() == 0 {
        None
    } else if table.last().0 <= pos {
        Some((table.len() - 1) as int)
    } else {
        line_index_of(table.drop_last(), pos)
    }
}

/// What the looked-up index means: its entry starts at or before `pos`, the
/// next entry (if any) starts after `pos`, and there is no index exactly
/// when every entry starts after `pos`.
pub proof fn lemma_line_index_characterizes(table: Seq<RelativeBytePos>, pos: int)
    ensures
        match line_index_of(table, pos) {
            Some(i) => 0 <= i < table.len() && table[i].0 <= pos && (i + 1 < table.len() ==> pos
                < table[i + 1].0),
            None => forall|j: int| 0 <= j < table.len() ==> pos < (#[trigger] table[j]).0,
        },
    decreases table.len(),
{
    if table.len() > 0 && !(table.last().0 <= pos) {
        let front = table.drop_last();
        assert(forall|j: int| 0 <= j < front.len() ==> front[j] == table[j]);
        lemma_line_index_characterizes(front, pos);
    }
}

impl SourceFile {
    /// Finds the line containing the given position: the greatest index into
    /// the line table whose entry is at or before `pos`, or nothing if the
    /// file is empty or the position comes before the first recorded line.
    pub fn lookup_line(&self, pos: RelativeBytePos) -> (r: Option<usize>)
        requires
            lines_sorted(self.lines@),
        ensures
            match r {
                Some(i) => line_index_of(self.lines@, pos.0 as int) == Some(i as int),
                None => line_index_of(self.lines@, pos.0 as int) is None,
            },
    {
        proof {
            lemma_line_index_characterizes(self.lines@, pos.0 as int);
        }
        let n = self.lines.len();
        let mut lo: usize = 0;
        let mut hi: usize = n;
        while lo < hi
            invariant
                lo <= hi <= n,
                n == self.lines@.len(),
                lines_sorted(self.lines@),
                forall|j: int| 0 <= j < lo ==> (#[trigger] self.lines@[j]).0 <= pos.0,
                forall|j: int| hi <= j < n ==> pos.0 < (#[trigger] self.lines@[j]).0,
            decreases hi - lo,
        {
            let mid = lo + (hi - lo) / 2;
            if self.lines[mid].0 <= pos.0 {
                lo = mid + 1;
            } else {
                hi = mid;
            }
        }
        if lo == 0 {
            None
        } else {
            proof {
                match line_index_of(self.lines@, pos.0 as int) {
                    Some(i) => {
                        if i < lo - 1 {
                            assert(pos.0 < self.lines@[i + 1].0);
                            assert(self.lines@[i + 1].0 <= self.lines@[lo - 1].0);
                        }
                        if i > lo - 1 {
                            assert(pos.0 < self.lines@[i].0);
                        }
                        assert(i == lo - 1);
                    },
                    None => {
                        assert(pos.0 < self.lines@[lo - 1].0);
                        assert(false);
                    },
                }
            }
            Some(lo - 1)
        }
    }

    /// Converts a file-relative byte position to a character position: the
    /// count of characters that start before it. The position must be in
    /// range and must not split a multi-byte character, which would mean it
    /// did not originate from this index.
    pub fn bytepos_to_file_charpos(&self, bpos: RelativeBytePos) -> (r: CharPos)
        requires
            self.tables_wf(),
            pos_outside_mbc_spans(self.multibyte_chars@, bpos.0 as int),
        ensures
            r.0 == char_pos_of(self.multibyte_chars@, bpos.0 as int),
    {
        let ghost table = self.multibyte_chars@;
        let ghost bp = bpos.0 as int;
        proof {
            lemma_extra_bytes_bound(table, bp, 0);
            assert(table.skip(0) =~= table);
        }
        // The number of extra bytes due to multi-byte characters before the
        // position. Records are sorted, so the scan can stop at the first
        // record at or past it.
        let mut total_extra_bytes: u32 = 0;
        let n = self.multibyte_chars.len();
        let mut k: usize = 0;
        while k < n && self.multibyte_chars[k].pos.0 < bpos.0
            invariant
                k <= n,
                n == table.len(),
                self.tables_wf(),
                table == self.multibyte_chars@,
                pos_outside_mbc_spans(table, bp),
                bp == bpos.0 as int,
                extra_bytes_before(table, bp) == total_extra_bytes + extra_bytes_before(
                    table.skip(k as int),
                    bp,
                ),
                total_extra_bytes <= extra_bytes_before(table, bp),
                extra_bytes_before(table, bp) <= bp,
            decreases n - k,
        {
            let mbc = self.multibyte_chars[k];
            proof {
                assert(mbc == table[k as int]);
                assert(2 <= table[k as int].bytes <= 4);
                let rest = table.skip(k as int);
                assert(forall|j: int| 0 <= j < rest.len() ==> rest[j] == table[j + k]);
                assert(rest.drop_first() =~= table.skip(k + 1));
                let rest2 = table.skip(k + 1);
                assert(forall|j: int| 0 <= j < rest2.len() ==> rest2[j] == table[j + k + 1]);
                lemma_extra_bytes_bound(rest2, bp, mbc.pos.0 + mbc.bytes);
            }
            total_extra_bytes += mbc.bytes as u32 - 1;
            k += 1;
        }
        proof {
            let rest = table.skip(k as int);
            assert(forall|j: int| 0 <= j < rest.len() ==> rest[j] == table[j + k]);
            lemma_extra_bytes_bound(rest, bp, bp);
        }
        CharPos((bpos.0 - total_extra_bytes) as usize)
    }

    /// The 1-based line number and 0-based character column of a position,
    /// by the model: the line from the line table, and the column as the
    /// character distance from that line's recorded start. A position before
    /// the first recorded line reports line 0 with its raw character
    /// position as the column.
    pub open spec fn spec_line_col(self, pos: int) -> (int, int) {
        match line_index_of(self.lines@, pos) {
            Some(i) => (
                i + 1,
                char_pos_of(self.multibyte_chars@, pos) - char_pos_of(
                    self.multibyte_chars@,
                    self.lines@[i].0 as int,
                ),
            ),
            None => (0, char_pos_of(self.multibyte_chars@, pos)),
        }
    }

    /// Looks up the 1-based line number and 0-based character column of a
    /// file-relative position.
    fn lookup_file_pos(&self, pos: RelativeBytePos) -> (r: (usize, CharPos))
        requires
            self.tables_wf(),
            pos_outside_mbc_spans(self.multibyte_chars@, pos.0 as int),
        ensures
            r.0 == self.spec_line_col(pos.0 as int).0,
            r.1.0 == self.spec_line_col(pos.0 as int).1,
    {
        let chpos = self.bytepos_to_file_charpos(pos);
        match self.lookup_line(pos) {
            Some(a) => {
                proof {
                    lemma_line_index_characterizes(self.lines@, pos.0 as int);
                }
                let _line_count = self.lines.len();
                let line = a + 1;  // Line numbers start at 1.
                let linebpos = self.lines[a];
                proof {
                    lemma_char_pos_monotonic(
                        self.multibyte_chars@,
                        linebpos.0 as int,
                        pos.0 as int,
                    );
                }
                let linechpos = self.bytepos_to_file_charpos(linebpos);
                let col = CharPos(chpos.to_usize() - linechpos.to_usize());
                (line, col)
            },
            None => (0, chpos),
        }
    }

    /// The 0-based display column of a position: its character column,
    /// except that each non-narrow character on the line before it counts
    /// its rendered width instead of one cell.
    pub open spec fn spec_col_display(self, pos: int) -> int {
        let lo = match line_index_of(self.lines@, pos) {
            Some(i) => self.lines@[i].0 as int,
            None => 0,
        };
        let chars = char_pos_of(self.multibyte_chars@, pos) - char_pos_of(
            self.multibyte_chars@,
            lo,
        );
        let special = nn_count_before(self.non_narrow_chars@, pos) - nn_count_before(
            self.non_narrow_chars@,
            lo,
        );
        let widths = nn_width_before(self.non_narrow_chars@, pos) - nn_width_before(
            self.non_narrow_chars@,
            lo,
        );
        chars - special + widths
    }

    /// The index of the first non-narrow record at or past position `x`,
    /// which is also how many records start before `x`.
    fn nn_partition_point(&self, x: u32) -> (idx: usize)
        requires
            nncs_sorted(self.non_narrow_chars@),
        ensures
            idx <= self.non_narrow_chars@.len(),
            idx == nn_count_before(self.non_narrow_chars@, x as int),
            forall|j: int|
                0 <= j < idx ==> (#[trigger] self.non_narrow_chars@[j]).spec_pos() < x,
            forall|j: int|
                idx <= j < self.non_narrow_chars@.len() ==> x <= (
                #[trigger] self.non_narrow_chars@[j]).spec_pos(),
    {
        let n = self.non_narrow_chars.len();
        let mut lo: usize = 0;
        let mut hi: usize = n;
        while lo < hi
            invariant
                lo <= hi <= n,
                n == self.non_narrow_chars@.len(),
                nncs_sorted(self.non_narrow_chars@),
                forall|j: int|
                    0 <= j < lo ==> (#[trigger] self.non_narrow_chars@[j]).spec_pos() < x,
                forall|j: int|
                    hi <= j < n ==> x <= (#[trigger] self.non_narrow_chars@[j]).spec_pos(),
            decreases hi - lo,
        {
            let mid = lo + (hi - lo) / 2;
            if self.non_narrow_chars[mid].pos().to_u32() < x {
                lo = mid + 1;
            } else {
                hi = mid;
            }
        }
        proof {
            lemma_nn_count_is_partition(self.non_narrow_chars@, x as int, lo as int);
        }
        lo
    }

    /// The summed rendered widths of the non-narrow records in the index
    /// window `[from, to)`, which must be the partition points of the
    /// positions `lo` and `hi`.
    fn nn_width_sum(&self, from: usize, to: usize, Ghost(lo): Ghost<int>, Ghost(hi): Ghost<int>) -> (r: usize)
        requires
            from <= to <= self.non_narrow_chars@.len(),
            lo <= hi,
            forall|j: int|
                0 <= j < from ==> (#[trigger] self.non_narrow_chars@[j]).spec_pos() < lo,
            forall|j: int|
                from <= j < to ==> lo <= (#[trigger] self.non_narrow_chars@[j]).spec_pos() < hi,
            forall|j: int|
                to <= j < self.non_narrow_chars@.len() ==> hi <= (
                #[trigger] self.non_narrow_chars@[j]).spec_pos(),
            4 * self.non_narrow_chars@.len() <= usize::MAX,
        ensures
            r == nn_width_before(self.non_narrow_chars@, hi) - nn_width_before(
                self.non_narrow_chars@,
                lo,
            ),
            r <= 4 * (to - from),
    {
        let ghost table = self.non_narrow_chars@;
        proof {
            lemma_nn_skip_cancel(table, from as int, lo, hi);
        }
        let mut acc: usize = 0;
        let mut k: usize = from;
        while k < to
            invariant
                from <= k <= to <= table.len(),
                table == self.non_narrow_chars@,
                lo <= hi,
                forall|j: int| from <= j < to ==> lo <= (#[trigger] table[j]).spec_pos() < hi,
                4 * table.len() <= usize::MAX,
                acc <= 4 * (k - from),
                nn_width_before(table, hi) - nn_width_before(table, lo) == acc + nn_width_before(
                    table.skip(k as int),
                    hi,
                ) - nn_width_before(table.skip(k as int), lo),
            decreases to - k,
        {
            proof {
                let rest = table.skip(k as int);
                assert(forall|j: int| 0 <= j < rest.len() ==> rest[j] == table[j + k]);
                assert(rest.drop_first() =~= table.skip(k + 1));
            }
            acc += self.non_narrow_chars[k].width();
            k += 1;
        }
        proof {
            let rest = table.skip(to as int);
            assert(forall|j: int| 0 <= j < rest.len() ==> rest[j] == table[j + to]);
            lemma_nn_count_zero(rest, hi);
            lemma_nn_count_zero(rest, lo);
        }
        acc
    }
}


/// Relies on the documentation of `RangeInclusive::into_inner`: it
/// destructures the range into its lower and upper (inclusive) bounds.
pub assume_specification<Idx>[ RangeInclusive::<Idx>::into_inner ](r: RangeInclusive<Idx>) -> (ret: (
    Idx,
    Idx,
))
    ensures
        ret.0 == r@.start,
        ret.1 == r@.end,
;

/// The first newline at or past byte `i`, or the text's length if none is
/// left: the exclusive end of the line that starts at or covers `i`.
pub open spec fn next_newline(s: Seq<u8>, i: int) -> int
    decreases s.len() - i,
{
    if i < 0 || i >= s.len() {
        s.len() as int
    } else if s[i] == 10 {
        i
    } else {
        next_newline(s, i + 1)
    }
}

impl SourceFile {
    /// The bytes of the stored text, empty once the text has been evicted.
    pub open spec fn spec_src_bytes(self) -> Seq<u8> {
        match self.src {
            Some(s) => encode_utf8(s@),
            None => Seq::empty(),
        }
    }

    /// Looks up the 1-based line number, 0-based character column, and
    /// 0-based display column of an absolute position: the display column
    /// counts each non-narrow character on the line at its rendered width
    /// instead of one cell.
    pub fn lookup_file_pos_with_col_display(&self, pos: BytePos) -> (r: (usize, CharPos, usize))
        requires
            self.tables_wf(),
            self.start_pos.0 <= pos.0,
            pos.0 - self.start_pos.0 <= self.source_len.0,
            pos_outside_mbc_spans(self.multibyte_chars@, pos.0 - self.start_pos.0),
            5 * (self.source_len.0 as int) <= usize::MAX,
        ensures
            r.0 == self.spec_line_col(pos.0 - self.start_pos.0).0,
            r.1.0 == self.spec_line_col(pos.0 - self.start_pos.0).1,
            r.2 == self.spec_col_display(pos.0 - self.start_pos.0),
    {
        let ghost rel = pos.0 - self.start_pos.0;
        let ghost mbcs = self.multibyte_chars@;
        let ghost nncs = self.non_narrow_chars@;
        let pos = self.relative_position(pos);
        proof {
            lemma_nncs_len_bound(nncs, self.source_len.0 as int);
            lemma_extra_bytes_bound(mbcs, rel, 0);
            lemma_line_index_characterizes(self.lines@, rel);
        }
        let (line, col_or_chpos) = self.lookup_file_pos(pos);
        if line > 0 {
            let col = col_or_chpos;
            let linebpos = self.lines[line - 1];
            let ghost lo = linebpos.0 as int;
            proof {
                lemma_char_pos_monotonic(mbcs, lo, rel);
                lemma_nn_count_le_chars(nncs, mbcs, lo, rel);
                lemma_nn_window_bounds(nncs, lo, rel);
            }
            let start_width_idx = self.nn_partition_point(linebpos.0);
            let end_width_idx = self.nn_partition_point(pos.0);
            proof {
                lemma_nn_count_monotonic(nncs, lo, rel);
            }
            let special_chars = end_width_idx - start_width_idx;
            let non_narrow = self.nn_width_sum(
                start_width_idx,
                end_width_idx,
                Ghost(lo),
                Ghost(rel),
            );
            let col_display = col.to_usize() - special_chars + non_narrow;
            (line, col, col_display)
        } else {
            let chpos = col_or_chpos;
            proof {
                lemma_extra_bytes_bound(mbcs, 0, 0);
                lemma_char_pos_monotonic(mbcs, 0, rel);
                lemma_nn_count_le_chars(nncs, mbcs, 0, rel);
                lemma_nn_window_bounds(nncs, 0, rel);
                lemma_nn_count_zero(nncs, 0);
            }
            let end_width_idx = self.nn_partition_point(pos.0);
            let non_narrow = self.nn_width_sum(0, end_width_idx, Ghost(0int), Ghost(rel));
            let col_display = chpos.to_usize() - end_width_idx + non_narrow;
            (0, chpos, col_display)
        }
    }

    /// Gets a line from the list of pre-computed line beginnings, as the
    /// text from that line's start up to the next newline, or to
    /// end-of-file if none follows. The line number here is 0-based.
    /// Returns nothing if the text has been evicted or the index is out of
    /// range.
    pub fn get_line(&self, line_number: usize) -> (r: Option<&str>)
        requires
            self.wf(),
        ensures
            match r {
                Some(t) => {
                    &&& self.src is Some
                    &&& line_number < self.lines@.len()
                    &&& t.spec_bytes() == self.spec_src_bytes().subrange(
                        self.lines@[line_number as int].0 as int,
                        next_newline(
                            self.spec_src_bytes(),
                            self.lines@[line_number as int].0 as int,
                        ),
                    )
                },
                None => self.src is None || line_number >= self.lines@.len(),
            },
    {
        proof {
            broadcast use vstd::utf8::group_utf8_lib;

        }
        let src_str = match &self.src {
            Some(s) => s,
            None => {
                return None;
            },
        };
        if line_number >= self.lines.len() {
            return None;
        }
        let s: &str = src_str.as_str();
        let bytes = s.as_bytes();
        let n = bytes.len();
        let begin = self.lines[line_number].to_usize();
        let end = find_newline(bytes, begin);
        let (prefix, _) = s.split_at(end);
        proof {
            let pb = prefix.spec_bytes();
            assert(pb =~= s.spec_bytes().subrange(0, end as int));
            vstd::utf8::valid_utf8_split(s.spec_bytes(), end as int);
            if begin < end {
                assert(is_char_boundary(s.spec_bytes(), begin as int));
                vstd::utf8::is_char_boundary_iff_not_is_continuation_byte(
                    s.spec_bytes(),
                    begin as int,
                );
                assert(pb[begin as int] == s.spec_bytes()[begin as int]);
                vstd::utf8::is_char_boundary_iff_not_is_continuation_byte(pb, begin as int);
            } else {
                vstd::utf8::is_char_boundary_start_end_of_seq(pb);
            }
            assert(is_char_boundary(pb, begin as int));
        }
        let (_, line) = prefix.split_at(begin);
        proof {
            assert(line.spec_bytes() =~= self.spec_src_bytes().subrange(
                begin as int,
                next_newline(self.spec_src_bytes(), begin as int),
            ));
        }
        Some(line)
    }

    /// Gets the text from the start of the line at index `start` through the
    /// newline that terminates the line at index `end`, or to end-of-file if
    /// none follows. Both indices are 0-based and the range is inclusive.
    /// Returns nothing if the text has been evicted or either index is out
    /// of range.
    pub fn get_lines(&self, range: RangeInclusive<usize>) -> (r: Option<&str>)
        requires
            self.wf(),
            range@.start <= range@.end,
        ensures
            match r {
                Some(t) => {
                    &&& self.src is Some
                    &&& range@.end < self.lines@.len()
                    &&& t.spec_bytes() == self.spec_src_bytes().subrange(
                        self.lines@[range@.start as int].0 as int,
                        next_newline(
                            self.spec_src_bytes(),
                            self.lines@[range@.end as int].0 as int,
                        ),
                    )
                },
                None => self.src is None || range@.end >= self.lines@.len(),
            },
    {
        proof {
            broadcast use vstd::utf8::group_utf8_lib;

        }
        let src_str = match &self.src {
            Some(s) => s,
            None => {
                return None;
            },
        };
        let (start, end) = range.into_inner();
        if end >= self.lines.len() {
            return None;
        }
        let s: &str = src_str.as_str();
        let bytes = s.as_bytes();
        let begin = self.lines[start].to_usize();
        let last_line_start = self.lines[end].to_usize();
        proof {
            if start < end {
                assert(self.lines@[start as int].0 < self.lines@[end as int].0);
            }
        }
        let slice_end = find_newline(bytes, last_line_start);
        let (prefix, _) = s.split_at(slice_end);
        proof {
            let pb = prefix.spec_bytes();
            assert(pb =~= s.spec_bytes().subrange(0, slice_end as int));
            vstd::utf8::valid_utf8_split(s.spec_bytes(), slice_end as int);
            if begin < slice_end {
                assert(is_char_boundary(s.spec_bytes(), begin as int));
                vstd::utf8::is_char_boundary_iff_not_is_continuation_byte(
                    s.spec_bytes(),
                    begin as int,
                );
                assert(pb[begin as int] == s.spec_bytes()[begin as int]);
                vstd::utf8::is_char_boundary_iff_not_is_continuation_byte(pb, begin as int);
            } else {
                vstd::utf8::is_char_boundary_start_end_of_seq(pb);
            }
            assert(is_char_boundary(pb, begin as int));
        }
        let (_, text) = prefix.split_at(begin);
        proof {
            assert(text.spec_bytes() =~= self.spec_src_bytes().subrange(
                begin as int,
                next_newline(self.spec_src_bytes(), last_line_start as int),
            ));
        }
        Some(text)
    }

    /// For a file whose text is still present, the character position that
    /// the index computes at a character boundary is the number of
    /// characters the text encodes before that byte.
    pub proof fn lemma_char_pos_counts_chars(self, p: int)
        requires
            self.wf(),
            self.src is Some,
            is_char_boundary(self.spec_src_bytes(), p),
            0 <= p <= self.spec_src_bytes().len(),
        ensures
            char_pos_of(self.multibyte_chars@, p) == vstd::utf8::decode_utf8(
                self.spec_src_bytes().subrange(0, p),
            ).len(),
    {
        broadcast use vstd::utf8::encode_utf8_valid_utf8;

        crate::charpos::lemma_char_pos_counts_chars(self.spec_src_bytes(), p);
    }

    /// Line/column lookup for a position at a recorded line start yields
    /// that line's 1-based number and column 0.
    pub proof fn lemma_line_start_has_column_zero(self, i: int)
        requires
            self.tables_wf(),
            0 <= i < self.lines@.len(),
        ensures
            self.spec_line_col(self.lines@[i].0 as int) == (i + 1, 0int),
    {
        let pos = self.lines@[i].0 as int;
        lemma_line_index_characterizes(self.lines@, pos);
        match line_index_of(self.lines@, pos) {
            Some(j) => {
                if j < i {
                    assert(self.lines@[j + 1].0 <= self.lines@[i].0);
                }
                if j > i {
                    assert(self.lines@[i].0 < self.lines@[j].0);
                }
                assert(j == i);
            },
            None => {
                assert(pos < self.lines@[i].0);
            },
        }
    }
}

/// Scans forward from `begin` for the next newline byte; returns the text
/// length if none is left. On valid UTF-8 the returned position is always a
/// character boundary.
fn find_newline(bytes: &[u8], begin: usize) -> (r: usize)
    requires
        valid_utf8(bytes@),
        begin <= bytes@.len(),
    ensures
        r == next_newline(bytes@, begin as int),
        begin <= r <= bytes@.len(),
        is_char_boundary(bytes@, r as int),
{
    proof {
        broadcast use vstd::utf8::group_utf8_lib;

    }
    let n = bytes.len();
    let mut j = begin;
    while j < n && bytes[j] != 10
        invariant
            begin <= j <= n,
            n == bytes@.len(),
            next_newline(bytes@, begin as int) == next_newline(bytes@, j as int),
        decreases n - j,
    {
        j += 1;
    }
    proof {
        broadcast use vstd::utf8::group_utf8_lib;

        if j < n {
            assert(bytes@[j as int] == 10);
            assert(!vstd::utf8::is_continuation_byte(bytes@[j as int]));
        }
    }
    j
}

} // verus!
