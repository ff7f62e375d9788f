//! Entity identities: a bounded slot index paired with a generation counter,
//! so that handles to destroyed-and-recycled slots compare stale.

use vstd::prelude::*;

verus! {

/// One more than the largest valid slot index or generation. The all-ones
/// 16-bit value is reserved as a "no value" sentinel, so indices and
/// generations range over `0 .. SLOT_LIMIT`.
pub const SLOT_LIMIT: u16 = 65535;

/// A stable handle referring to one logical entity: a slot index into the
/// registry's record table plus the generation that slot had when the entity
/// was created. Two identities are equal iff both fields match.
#[derive(Debug, Clone, Copy, PartialEq, Eq, Structural, Hash)]
pub struct Entity {
    pub index: u16,
    pub generation: u16,
}

impl Entity {
    /// Both fields stay below the sentinel value.
    pub open spec fn wf(self) -> bool {
        self.index < SLOT_LIMIT && self.generation < SLOT_LIMIT
    }

    /// Builds an identity from its two fields.
    pub fn new(index: u16, generation: u16) -> (e: Entity)
        requires
            index < SLOT_LIMIT,
            generation < SLOT_LIMIT,
        ensures
            e == (Entity { index, generation }),
            e.wf(),
    {
        Entity { index, generation }
    }

    /// Returns the slot index of the identity.
    pub fn index(self) -> (i: u16)
        ensures
            i == self.index,
    {
        self.index
    }

    /// Returns the generation of the identity.
    pub fn generation(self) -> (g: u16)
        ensures
            g == self.generation,
    {
        self.generation
    }
}

} // verus!
