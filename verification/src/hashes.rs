//! Content hashing and stable file identity.
//!
//! Neither value takes part in position math: the content hash exists for
//! cache invalidation and the stable id for cross-run identification, both
//! delegated to hashers outside this core.

use std::hash::{Hash, Hasher};
use vstd::prelude::*;

verus! {

/// The selectable algorithm of the source text's content hash.
#[derive(Clone, Copy, Debug, PartialEq, Eq, PartialOrd, Ord, Hash, Structural)]
pub enum SourceFileHashAlgorithm {
    Md5,
    Sha1,
    Sha256,
}

/// The number of digest bytes the algorithm produces.
pub open spec fn spec_hash_len(kind: SourceFileHashAlgorithm) -> int {
    match kind {
        SourceFileHashAlgorithm::Md5 => 16,
        SourceFileHashAlgorithm::Sha1 => 20,
        SourceFileHashAlgorithm::Sha256 => 32,
    }
}

/// The hash of the on-disk source file.
///
/// The digest computation is delegated and opaque to this core: only the
/// algorithm tag is significant here, and the stored digest bytes are zero
/// for every algorithm and input.
#[derive(Clone, Copy, Debug)]
pub struct SourceFileHash {
    pub kind: SourceFileHashAlgorithm,
    /// The stored digest bytes; only the first [`spec_hash_len`] are
    /// meaningful.
    pub value: [u8; 32],
}

impl SourceFileHash {
    /// The stored digest bytes, all 32 of them, as a sequence.
    pub open spec fn spec_value(self) -> Seq<u8> {
        self.value@
    }

    pub fn new(kind: SourceFileHashAlgorithm, _src: &str) -> (r: Self)
        ensures
            r.kind == kind,
            r.spec_value() == Seq::new(32, |i: int| 0u8),
    {
        let value = [0u8; 32];
        proof {
            assert(value@ =~= Seq::new(32, |i: int| 0u8));
        }
        Self { kind, value }
    }

    /// Check if the stored hash matches the hash of the string: whether this
    /// value equals what [`Self::new`] returns for the same algorithm and
    /// the given text.
    pub fn matches(&self, src: &str) -> (r: bool)
        ensures
            r == (self.spec_value() == Seq::new(32, |i: int| 0u8)),
    {
        let other = Self::new(self.kind, src);
        let mut i: usize = 0;
        let mut equal = true;
        while i < 32
            invariant
                i <= 32,
                other.spec_value() == Seq::new(32, |j: int| 0u8),
                equal <==> (forall|j: int| 0 <= j < i ==> self.spec_value()[j] == other.spec_value()[j]),
        decreases 32 - i,
        {
            if self.value[i] != other.value[i] {
                equal = false;
            }
            i += 1;
        }
        proof {
            if equal {
                assert(self.spec_value() =~= Seq::new(32, |i: int| 0u8));
            }
        }
        equal
    }

    /// The meaningful bytes of the hash: the first [`spec_hash_len`] of the
    /// stored digest.
    pub fn hash_bytes(&self) -> (r: Vec<u8>)
        ensures
            r@ == self.spec_value().subrange(0, spec_hash_len(self.kind)),
    {
        let len = self.hash_len();
        let mut out: Vec<u8> = Vec::new();
        let mut i: usize = 0;
        while i < len
            invariant
                i <= len,
                len == spec_hash_len(self.kind),
                out@ == self.spec_value().subrange(0, i as int),
            decreases len - i,
        {
            out.push(self.value[i]);
            proof {
                assert(out@ =~= self.spec_value().subrange(0, i + 1));
            }
            i += 1;
        }
        out
    }

    /// How many digest bytes the algorithm produces.
    pub fn hash_len(&self) -> (r: usize)
        ensures
            r == spec_hash_len(self.kind),
    {
        match self.kind {
            SourceFileHashAlgorithm::Md5 => 16,
            SourceFileHashAlgorithm::Sha1 => 20,
            SourceFileHashAlgorithm::Sha256 => 32,
        }
    }
}

/// Relies on `rustc_hash::FxHasher` (its `Default`, `write` and `finish`):
/// a fast, non-cryptographic hash of the given bytes. The result also
/// depends on the platform's pointer width, so nothing is stated of the
/// value.
#[verifier::external_body]
pub(crate) fn fx_hash_bytes(bytes: &[u8]) -> u64 {
    let mut hasher = rustc_hash::FxHasher::default();
    hasher.write(bytes);
    hasher.finish()
}

/// Relies on `ahash::AHasher` (its `Default`, the `Hash` impl of `str`, and
/// `finish`): a keyed hash whose keys the crate generates once per process,
/// so nothing is stated of the value.
#[verifier::external_body]
pub(crate) fn anon_hash_str(s: &str) -> u64 {
    let mut hasher = ahash::AHasher::default();
    s.hash(&mut hasher);
    hasher.finish()
}

} // verus!
