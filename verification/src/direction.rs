//! A six-bit flag set over the axis-aligned face normals.
//!
//! Bit `d` stands for one face direction, in the order east (+X), up (+Y),
//! north (+Z), west (-X), down (-Y), south (-Z).  The mesher keeps one set
//! per cell to record which faces an emitted quad already covers.

use vstd::prelude::*;

verus! {

/// Face direction indices, in the fixed order the mesher iterates.
pub const DIR_EAST: u8 = 0;

pub const DIR_UP: u8 = 1;

pub const DIR_NORTH: u8 = 2;

pub const DIR_WEST: u8 = 3;

pub const DIR_DOWN: u8 = 4;

pub const DIR_SOUTH: u8 = 5;

/// A set of face directions, one bit per normal.
#[derive(Debug, Clone, Copy, PartialEq, Eq, Structural)]
pub struct DirectionSet {
    pub bits: u8,
}

/// Is direction `d` a member of the set with the given bits?
pub open spec fn dir_in(bits: u8, d: u8) -> bool {
    (bits >> d) & 1u8 == 1u8
}

/// Inserting one direction adds exactly that member.
proof fn lemma_dir_insert(bits: u8, d: u8, d2: u8)
    by (bit_vector)
    requires
        d < 8,
        d2 < 8,
    ensures
        dir_in(bits | (1u8 << d), d),
        d2 != d ==> dir_in(bits | (1u8 << d), d2) == dir_in(bits, d2),
{
}

/// The empty set has no members.
proof fn lemma_dir_empty(d: u8)
    by (bit_vector)
    requires
        d < 8,
    ensures
        !dir_in(0u8, d),
{
}

impl DirectionSet {
    /// The set with no faces covered.
    pub fn empty() -> (r: DirectionSet)
        ensures
            r.bits == 0,
            forall|d: u8| d < 8 ==> !dir_in(r.bits, d),
    {
        proof {
            assert forall|d: u8| d < 8 implies !dir_in(0u8, d) by {
                lemma_dir_empty(d);
            }
        }
        DirectionSet { bits: 0 }
    }

    /// Whether direction `d` is in the set.
    pub fn contains(&self, d: u8) -> (r: bool)
        requires
            d < 8,
        ensures
            r == dir_in(self.bits, d),
    {
        (self.bits >> d) & 1 == 1
    }

    /// The set with direction `d` added.
    pub fn with(&self, d: u8) -> (r: DirectionSet)
        requires
            d < 8,
        ensures
            dir_in(r.bits, d),
            forall|d2: u8| d2 < 8 && d2 != d ==> dir_in(r.bits, d2) == dir_in(self.bits, d2),
    {
        let r = DirectionSet { bits: self.bits | (1u8 << d) };
        proof {
            lemma_dir_insert(self.bits, d, d);
            assert forall|d2: u8| d2 < 8 && d2 != d implies dir_in(r.bits, d2) == dir_in(
                self.bits,
                d2,
            ) by {
                lemma_dir_insert(self.bits, d, d2);
            }
        }
        r
    }
}

/// The face on the other side of the same axis.
pub fn opposite_direction(d: u8) -> (r: u8)
    requires
        d < 6,
    ensures
        r == (d + 3) % 6,
        r < 6,
{
    (d + 3) % 6
}

} // verus!
