//! The block-attribute registry: maps a block identity to its display name
//! and boolean traits.  The mesher consults it only through
//! `get_block_attributes`.

use vstd::prelude::*;
use vstd::string::StringExecFns;

verus! {

/// The flag bit for a see-through block.
pub const ATTR_TRANSPARENT: u64 = 1;

/// The flag bit for a block that takes part in collision.
pub const ATTR_COLLIDEABLE: u64 = 2;

/// The flag bit for a block that can be destroyed.
pub const ATTR_DESTRUCTIBLE: u64 = 4;

/// The flag bit for a block that can be picked up.
pub const ATTR_COLLECTABLE: u64 = 8;

/// A set of boolean block traits, one bit per trait.
#[derive(Debug, Clone, Copy, PartialEq, Eq, Structural)]
pub struct Attributes {
    pub bits: u64,
}

impl Attributes {
    /// The set with no traits.
    pub fn empty() -> (r: Attributes)
        ensures
            r.bits == 0,
    {
        Attributes { bits: 0 }
    }

    /// The set holding exactly the given flag bits.
    pub fn from_bits(bits: u64) -> (r: Attributes)
        ensures
            r.bits == bits,
    {
        Attributes { bits }
    }

    /// Whether every trait of `other` is also in `self`.
    pub fn contains(&self, other: Attributes) -> (r: bool)
        ensures
            r == (self.bits & other.bits == other.bits),
    {
        self.bits & other.bits == other.bits
    }

    /// The union of two trait sets.
    pub fn with(&self, other: Attributes) -> (r: Attributes)
        ensures
            r.bits == self.bits | other.bits,
    {
        Attributes { bits: self.bits | other.bits }
    }
}

/// One registered block: its full display name and its traits.
pub struct BlockDefinition {
    name: String,
    attribs: Attributes,
}

impl BlockDefinition {
    /// The full registered name.
    pub closed spec fn spec_name(&self) -> Seq<char> {
        self.name@
    }

    /// The registered traits.
    pub closed spec fn spec_attribs(&self) -> Attributes {
        self.attribs
    }

    pub fn name(&self) -> (r: &str)
        ensures
            r@ == self.spec_name(),
    {
        self.name.as_str()
    }

    pub fn attribs(&self) -> (r: Attributes)
        ensures
            r == self.spec_attribs(),
    {
        self.attribs
    }

    /// Whether this block carries every trait in `attrib`.
    pub fn has_attribute(&self, attrib: Attributes) -> (r: bool)
        ensures
            r == (self.spec_attribs().bits & attrib.bits == attrib.bits),
    {
        self.attribs.contains(attrib)
    }
}

/// The registry: block identity `i` is the index of its definition.
pub struct BlockRegistry {
    definitions: Vec<BlockDefinition>,
}

/// The identity every registry assigns to the background block.
pub const AIR_ID: u16 = 0;

impl View for BlockRegistry {
    type V = Seq<BlockDefinition>;

    closed spec fn view(&self) -> Seq<BlockDefinition> {
        self.definitions@
    }
}

impl BlockRegistry {
    /// Identities stay representable: the registry never outgrows `u16`.
    pub closed spec fn wf(&self) -> bool {
        self@.len() <= 0xffff
    }

    /// The next free identity, if one is left.
    fn next_id(&self) -> (r: Option<u16>)
        ensures
            self@.len() < 0xffff ==> r == Some(self@.len() as u16),
            self@.len() >= 0xffff ==> r is None,
    {
        if self.definitions.len() < 0xffff {
            Some(self.definitions.len() as u16)
        } else {
            None
        }
    }

    /// Registers a block under `group:name` and returns its new identity.
    pub fn register_block(&mut self, group: &str, name: &str, attribs: Attributes) -> (r: u16)
        requires
            old(self)@.len() < 0xffff,
        ensures
            final(self).wf(),
            r == old(self)@.len() as u16,
            final(self)@.len() == old(self)@.len() + 1,
            forall|j: int| 0 <= j < old(self)@.len() ==> final(self)@[j] == old(self)@[j],
            final(self)@[r as int].spec_name() == group@ + ":"@ + name@,
            final(self)@[r as int].spec_attribs() == attribs,
    {
        let full_name = group.to_owned().concat(":").concat(name);
        let id = match self.next_id() {
            Some(id) => id,
            None => {
                proof {
                    assert(false);
                }
                0
            },
        };
        self.definitions.push(BlockDefinition { name: full_name, attribs });
        id
    }

    /// Whether `id` names a registered block.
    pub fn block_exists(&self, id: u16) -> (r: bool)
        ensures
            r == ((id as int) < self@.len()),
    {
        (id as usize) < self.definitions.len()
    }

    /// The identity last registered under `name`, if any.
    pub fn get_block_id(&self, name: String) -> (r: Option<u16>)
        requires
            self.wf(),
        ensures
            match r {
                Some(id) => {
                    &&& (id as int) < self@.len()
                    &&& self@[id as int].spec_name() == name@
                    &&& forall|j: int|
                        (id as int) < j < self@.len() ==> self@[j].spec_name() != name@
                },
                None => forall|j: int| 0 <= j < self@.len() ==> self@[j].spec_name() != name@,
            },
    {
        let n = self.definitions.len();
        let mut j: usize = n;
        while j > 0
            invariant
                self.wf(),
                j <= n,
                n == self@.len(),
                forall|k: int| j <= k < n ==> self@[k].spec_name() != name@,
            decreases j,
        {
            j = j - 1;
            if self.definitions[j].name == name {
                return Some(j as u16);
            }
        }
        None
    }

    /// The full name registered for `id`.
    pub fn get_block_name(&self, id: u16) -> (r: String)
        requires
            (id as int) < self@.len(),
        ensures
            r@ == self@[id as int].spec_name(),
    {
        self.definitions[id as usize].name.clone()
    }

    /// The trait set registered for `id`.
    pub fn get_block_attributes(&self, id: u16) -> (r: Attributes)
        requires
            (id as int) < self@.len(),
        ensures
            r == self@[id as int].spec_attribs(),
    {
        self.definitions[id as usize].attribs
    }
}

impl Default for BlockRegistry {
    /// A registry holding only the background block, which is transparent.
    fn default() -> (r: BlockRegistry)
        ensures
            r.wf(),
            r@.len() == 1,
            r@[0].spec_name() == "core"@ + ":"@ + "air"@,
            r@[0].spec_attribs().bits == ATTR_TRANSPARENT,
    {
        let mut r = BlockRegistry { definitions: Vec::new() };
        r.register_block("core", "air", Attributes::from_bits(ATTR_TRANSPARENT));
        r
    }
}

} // verus!
