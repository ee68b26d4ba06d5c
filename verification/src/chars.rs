//! Records for characters that need special position or width handling.

use vstd::prelude::*;

use crate::pos::RelativeBytePos;

verus! {

/// Identifies an offset of a multi-byte character in a `SourceFile`.
#[derive(Clone, Copy, Debug, PartialEq, Eq, Structural)]
pub struct MultiByteChar {
    /// The relative offset of the character in the `SourceFile`.
    pub pos: RelativeBytePos,
    /// The number of bytes, `>= 2`.
    pub bytes: u8,
}

/// Identifies an offset of a non-narrow character in a `SourceFile`.
#[derive(Clone, Copy, Debug, PartialEq, Eq, Structural)]
pub enum NonNarrowChar {
    /// Represents a zero-width character.
    ZeroWidth(RelativeBytePos),
    /// Represents a wide (full-width) character.
    Wide(RelativeBytePos),
    /// Represents a tab character, represented visually with a width of 4 characters.
    Tab(RelativeBytePos),
}

impl NonNarrowChar {
    /// The relative offset of the character, as a plain integer.
    pub open spec fn spec_pos(self) -> u32 {
        match self {
            NonNarrowChar::ZeroWidth(p) => p.0,
            NonNarrowChar::Wide(p) => p.0,
            NonNarrowChar::Tab(p) => p.0,
        }
    }

    /// The rendered width of the character in terminal cells.
    pub open spec fn spec_width(self) -> int {
        match self {
            NonNarrowChar::ZeroWidth(_) => 0,
            NonNarrowChar::Wide(_) => 2,
            NonNarrowChar::Tab(_) => 4,
        }
    }

    pub fn new(pos: RelativeBytePos, width: usize) -> (r: Self)
        requires
            width == 0 || width == 2 || width == 4,
        ensures
            r == Self::spec_new(pos, width as int),
    {
        if width == 0 {
            Self::ZeroWidth(pos)
        } else if width == 2 {
            Self::Wide(pos)
        } else {
            Self::Tab(pos)
        }
    }

    /// The record for a character at `pos` whose rendered width is `width`.
    pub open spec fn spec_new(pos: RelativeBytePos, width: int) -> Self {
        if width == 0 {
            Self::ZeroWidth(pos)
        } else if width == 2 {
            Self::Wide(pos)
        } else {
            Self::Tab(pos)
        }
    }

    /// Returns the relative offset of the character in the `SourceFile`.
    pub fn pos(&self) -> (r: RelativeBytePos)
        ensures
            r.0 == self.spec_pos(),
    {
        match *self {
            Self::ZeroWidth(p) => p,
            Self::Wide(p) => p,
            Self::Tab(p) => p,
        }
    }

    /// Returns the width of the character: 0 (zero-width), 2 (wide), or 4 (tab).
    pub fn width(&self) -> (r: usize)
        ensures
            r == self.spec_width(),
    {
        match *self {
            Self::ZeroWidth(_) => 0,
            Self::Wide(_) => 2,
            Self::Tab(_) => 4,
        }
    }

    /// Shifts the record's position forward by `rhs` bytes.
    pub fn add(self, rhs: RelativeBytePos) -> (r: Self)
        requires
            self.spec_pos() + rhs.0 <= u32::MAX,
        ensures
            r.spec_pos() == self.spec_pos() + rhs.0,
            r.spec_width() == self.spec_width(),
    {
        match self {
            Self::ZeroWidth(pos) => Self::ZeroWidth(RelativeBytePos(pos.0 + rhs.0)),
            Self::Wide(pos) => Self::Wide(RelativeBytePos(pos.0 + rhs.0)),
            Self::Tab(pos) => Self::Tab(RelativeBytePos(pos.0 + rhs.0)),
        }
    }

    /// Shifts the record's position backward by `rhs` bytes.
    pub fn sub(self, rhs: RelativeBytePos) -> (r: Self)
        requires
            rhs.0 <= self.spec_pos(),
        ensures
            r.spec_pos() == self.spec_pos() - rhs.0,
            r.spec_width() == self.spec_width(),
    {
        match self {
            Self::ZeroWidth(pos) => Self::ZeroWidth(RelativeBytePos(pos.0 - rhs.0)),
            Self::Wide(pos) => Self::Wide(RelativeBytePos(pos.0 - rhs.0)),
            Self::Tab(pos) => Self::Tab(RelativeBytePos(pos.0 - rhs.0)),
        }
    }
}

} // verus!
