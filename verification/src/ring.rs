//! A cursor that walks a fixed-size ring: incrementing past the end wraps
//! back to zero.

use vstd::prelude::*;

verus! {

/// An index into a ring of `max` slots.
pub struct RingIndex {
    max: usize,
    current: usize,
}

impl RingIndex {
    /// How many slots the ring has.
    pub closed spec fn spec_max(&self) -> int {
        self.max as int
    }

    /// The cursor's current slot.
    pub closed spec fn spec_index(&self) -> int {
        self.current as int
    }

    /// The cursor stays inside the ring.
    pub open spec fn wf(&self) -> bool {
        0 <= self.spec_index() < self.spec_max()
    }

    pub fn new(max: usize) -> (r: RingIndex)
        requires
            max >= 1,
        ensures
            r.wf(),
            r.spec_max() == max,
            r.spec_index() == 0,
    {
        RingIndex { max, current: 0 }
    }

    pub fn index(&self) -> (r: usize)
        ensures
            r == self.spec_index(),
    {
        self.current
    }

    /// Advances the cursor one slot, wrapping at the end of the ring.
    pub fn increment(&mut self)
        requires
            old(self).wf(),
        ensures
            final(self).wf(),
            final(self).spec_max() == old(self).spec_max(),
            final(self).spec_index() == (old(self).spec_index() + 1) % old(self).spec_max(),
    {
        self.current = self.next_index();
    }

    /// The slot the cursor would advance to.
    pub fn next_index(&self) -> (r: usize)
        requires
            self.wf(),
        ensures
            r == (self.spec_index() + 1) % self.spec_max(),
            r < self.spec_max(),
    {
        (self.current + 1) % self.max
    }
}

} // verus!
