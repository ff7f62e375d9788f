//! Collision layer masks: bit sets deciding which broad categories of
//! collision an entity scans (`monitoring`) or can be found in
//! (`monitorable`).

use vstd::prelude::*;

verus! {

/// A mask determining the layer within the collision system. Two masks
/// overlap iff their bitwise AND is nonzero.
#[derive(Debug, Clone, Copy, PartialEq, Eq, Structural, Hash)]
pub struct CollisionMask(pub u8);

impl CollisionMask {
    /// The two masks share at least one layer.
    pub open spec fn spec_overlaps(self, other: CollisionMask) -> bool {
        (self.0 & other.0) != 0
    }

    /// Returns `true` if the two collision masks have overlapping layers.
    pub fn overlaps(self, other: CollisionMask) -> (r: bool)
        ensures
            r == self.spec_overlaps(other),
    {
        (self.0 & other.0) != 0
    }
}

/// A broad-phase query issued by `a` against `b` consults `a.monitoring` and
/// `b.monitorable` only, so the relation is intentionally directional: there
/// are mask pairs that let `a` detect `b` while `b` cannot detect `a`.
pub proof fn lemma_mask_filter_is_directional()
    ensures
        exists|a_monitoring: CollisionMask, b_monitorable: CollisionMask,
            b_monitoring: CollisionMask, a_monitorable: CollisionMask|
            a_monitoring.spec_overlaps(b_monitorable)
                && !b_monitoring.spec_overlaps(a_monitorable),
{
    let am = CollisionMask(2);
    let bm = CollisionMask(2);
    let bn = CollisionMask(1);
    let an = CollisionMask(0);
    assert((2u8 & 2u8) != 0) by (bit_vector);
    assert((1u8 & 0u8) == 0) by (bit_vector);
    assert(am.spec_overlaps(bm) && !bn.spec_overlaps(an));
}

} // verus!
