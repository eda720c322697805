//! The flag set of a tile: whether it is solid, whether it harms, and which
//! colours gate it.

use vstd::prelude::*;

verus! {

/// The bits of the empty set.
pub const NONE: u32 = 0x0;

/// The bit of a solid tile.
pub const COLLISION: u32 = 0x1;

/// The bit of a tile that harms what touches it.
pub const SPIKE: u32 = 0x2;

/// The bit of a tile that counts only under a red mask.
pub const RED: u32 = 0x4;

/// The bit of a tile that counts only under a green mask.
pub const GREEN: u32 = 0x8;

/// The bit of a tile that counts only under a blue mask.
pub const BLUE: u32 = 0x10;

/// The three gating bits together.
pub const WHITE: u32 = 0x1c;

/// Every bit that names a flag.
pub const ALL: u32 = 0x1f;

/// A set of tile flags, one bit each.
#[derive(Clone, Copy, Debug, PartialEq, Eq, Hash, Structural)]
pub struct TileFlags {
    pub bits: u32,
}

impl TileFlags {
    /// The empty set.
    pub fn none() -> (f: TileFlags)
        ensures
            f.bits == NONE,
    {
        TileFlags { bits: NONE }
    }

    /// The tile is solid.
    pub fn collision() -> (f: TileFlags)
        ensures
            f.bits == COLLISION,
    {
        TileFlags { bits: COLLISION }
    }

    /// The tile harms what touches it.
    pub fn spike() -> (f: TileFlags)
        ensures
            f.bits == SPIKE,
    {
        TileFlags { bits: SPIKE }
    }

    /// The tile counts only under a red mask.
    pub fn red() -> (f: TileFlags)
        ensures
            f.bits == RED,
    {
        TileFlags { bits: RED }
    }

    /// The tile counts only under a green mask.
    pub fn green() -> (f: TileFlags)
        ensures
            f.bits == GREEN,
    {
        TileFlags { bits: GREEN }
    }

    /// The tile counts only under a blue mask.
    pub fn blue() -> (f: TileFlags)
        ensures
            f.bits == BLUE,
    {
        TileFlags { bits: BLUE }
    }

    /// The three gating flags together.
    pub fn white() -> (f: TileFlags)
        ensures
            f.bits == WHITE,
    {
        TileFlags { bits: WHITE }
    }

    /// Whether no flag is set.
    pub open spec fn is_empty_spec(&self) -> bool {
        self.bits == 0
    }

    /// Whether the two sets share a flag.
    pub open spec fn intersects_spec(&self, other: TileFlags) -> bool {
        self.bits & other.bits != 0
    }

    /// Whether every flag of `other` is set in `self`.
    pub open spec fn contains_spec(&self, other: TileFlags) -> bool {
        self.bits & other.bits == other.bits
    }

    /// The flags of both sets.
    pub open spec fn union_spec(self, other: TileFlags) -> TileFlags {
        TileFlags { bits: self.bits | other.bits }
    }

    /// Whether a colour gates the tile.
    pub open spec fn is_colored_spec(&self) -> bool {
        self.bits & WHITE != 0
    }

    /// The bits of the set.
    pub fn bits(&self) -> (b: u32)
        ensures
            b == self.bits,
    {
        self.bits
    }

    /// The empty set.
    pub fn empty() -> (f: TileFlags)
        ensures
            f.bits == 0,
            f.is_empty_spec(),
    {
        TileFlags { bits: 0 }
    }

    /// The set with exactly the known flags among `bits`.
    pub fn from_bits_truncate(bits: u32) -> (f: TileFlags)
        ensures
            f.bits == bits & ALL,
    {
        TileFlags { bits: bits & ALL }
    }

    #[verifier::when_used_as_spec(is_empty_spec)]
    pub fn is_empty(&self) -> (b: bool)
        ensures
            b == self.is_empty_spec(),
    {
        self.bits == 0
    }

    #[verifier::when_used_as_spec(intersects_spec)]
    pub fn intersects(&self, other: TileFlags) -> (b: bool)
        ensures
            b == self.intersects_spec(other),
    {
        (self.bits & other.bits) != 0
    }

    #[verifier::when_used_as_spec(contains_spec)]
    pub fn contains(&self, other: TileFlags) -> (b: bool)
        ensures
            b == self.contains_spec(other),
    {
        (self.bits & other.bits) == other.bits
    }

    #[verifier::when_used_as_spec(union_spec)]
    pub fn union(self, other: TileFlags) -> (f: TileFlags)
        ensures
            f == self.union_spec(other),
    {
        TileFlags { bits: self.bits | other.bits }
    }

    #[verifier::when_used_as_spec(is_colored_spec)]
    pub fn is_colored(&self) -> (b: bool)
        ensures
            b == self.is_colored_spec(),
    {
        (self.bits & WHITE) != 0
    }
}

} // verus!
