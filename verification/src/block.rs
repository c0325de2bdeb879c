//! Block labels: an immutable identifier for one voxel's type.
//!
//! Two blocks are equal exactly when their identities are equal; the colour
//! and light fields are display attributes and do not participate in
//! equality.

use vstd::prelude::*;

verus! {

/// One voxel label: an identity plus display attributes.
#[derive(Debug, Clone, Copy)]
pub struct Block {
    pub id: u16,
    pub color: u16,
    pub light_lvl: u8,
}

impl Block {
    /// The distinguished empty/background label.
    pub fn air() -> (r: Block)
        ensures
            r == (Block { id: 0, color: 0, light_lvl: 0 }),
    {
        Block { id: 0, color: 0, light_lvl: 0 }
    }

    pub fn new(id: u16, color: u16, light_lvl: u8) -> (r: Block)
        ensures
            r == (Block { id, color, light_lvl }),
    {
        Block { id, color, light_lvl }
    }

    pub fn id(&self) -> (r: u16)
        ensures
            r == self.id,
    {
        self.id
    }

    pub fn color(&self) -> (r: u16)
        ensures
            r == self.color,
    {
        self.color
    }

    pub fn light_lvl(&self) -> (r: u8)
        ensures
            r == self.light_lvl,
    {
        self.light_lvl
    }
}

impl PartialEq for Block {
    fn eq(&self, other: &Block) -> (r: bool) {
        self.id == other.id
    }
}

impl vstd::std_specs::cmp::PartialEqSpecImpl for Block {
    open spec fn obeys_eq_spec() -> bool {
        true
    }

    open spec fn eq_spec(&self, other: &Block) -> bool {
        self.id == other.id
    }
}

} // verus!
