//! Byte- and character-position newtypes.
//!
//! Two flavors of byte position are kept distinct on purpose: a
//! [`RelativeBytePos`] is an offset within one file, while a [`BytePos`] is
//! an offset within the combined coordinate space of all loaded files.
//! Mixing the two silently is the most dangerous bug class in this
//! subsystem, so conversions are explicit.

use vstd::prelude::*;

verus! {

/// An absolute byte offset, relative to the start of the combined
/// multi-file coordinate space.
#[derive(Clone, Copy, Debug, PartialEq, Eq, Structural)]
pub struct BytePos(pub u32);

/// A byte offset relative to the start of one file.
#[derive(Clone, Copy, Debug, PartialEq, Eq, Structural)]
pub struct RelativeBytePos(pub u32);

/// A count of Unicode scalar values from the start of the file, used for
/// column math independent of encoding width.
#[derive(Clone, Copy, Debug, PartialEq, Eq, Structural)]
pub struct CharPos(pub usize);

impl BytePos {
    pub fn from_u32(n: u32) -> (r: Self)
        ensures
            r.0 == n,
    {
        BytePos(n)
    }

    pub fn to_u32(self) -> (r: u32)
        ensures
            r == self.0,
    {
        self.0
    }
}

impl RelativeBytePos {
    pub fn from_u32(n: u32) -> (r: Self)
        ensures
            r.0 == n,
    {
        RelativeBytePos(n)
    }

    pub fn to_u32(self) -> (r: u32)
        ensures
            r == self.0,
    {
        self.0
    }

    pub fn from_usize(n: usize) -> (r: Self)
        requires
            n <= u32::MAX,
        ensures
            r.0 == n,
    {
        RelativeBytePos(n as u32)
    }

    pub fn to_usize(self) -> (r: usize)
        ensures
            r == self.0,
    {
        self.0 as usize
    }
}

impl CharPos {
    pub fn from_usize(n: usize) -> (r: Self)
        ensures
            r.0 == n,
    {
        CharPos(n)
    }

    pub fn to_usize(self) -> (r: usize)
        ensures
            r == self.0,
    {
        self.0
    }
}

} // verus!
