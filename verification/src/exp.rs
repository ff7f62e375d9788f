//! Experience points and the level curve derived from them.

use vstd::prelude::*;

verus! {

/// Total experience required to finish the given level: the sum of
/// `(l + 3)^2` over levels `1 ..= level`.
pub open spec fn total_requirement(level: int) -> int
    decreases level,
{
    if level <= 0 {
        0
    } else {
        total_requirement(level - 1) + (level + 3) * (level + 3)
    }
}

/// Each level costs at least sixteen experience points.
proof fn lemma_total_requirement_lower(level: int)
    requires
        level >= 0,
    ensures
        total_requirement(level) >= 16 * level,
    decreases level,
{
    if level > 0 {
        lemma_total_requirement_lower(level - 1);
        assert((level + 3) * (level + 3) >= 16) by (nonlinear_arith)
            requires
                level >= 1,
        ;
    }
}

/// Experience points accumulated by the player.
#[derive(Debug, Clone, Copy, PartialEq, Eq, Structural, Hash)]
pub struct Exp(pub u32);

impl Exp {
    /// Returns the player's level: the number of levels whose total
    /// requirement the accumulated experience meets.
    pub fn level(&self) -> (r: u32)
        ensures
            total_requirement(r as int) <= self.0 < total_requirement(r as int + 1),
    {
        let mut level: u32 = 0;
        let mut total: u64 = 16;
        proof {
            assert(total_requirement(0) == 0);
            assert(total_requirement(1) == 16);
        }
        while self.0 as u64 >= total
            invariant
                total as int == total_requirement(level as int + 1),
                self.0 as int >= total_requirement(level as int),
                16 * (level as int) <= total_requirement(level as int),
            decreases self.0 as int - total_requirement(level as int),
        {
            proof {
                lemma_total_requirement_lower(level as int + 1);
                assert(total_requirement(level as int + 1) == total_requirement(level as int) + (
                level as int + 4) * (level as int + 4));
                assert((level as int + 4) * (level as int + 4) >= 16) by (nonlinear_arith)
                    requires
                        level as int >= 0,
                ;
                assert(total_requirement(level as int + 2) == total_requirement(level as int + 1)
                    + (level as int + 5) * (level as int + 5));
                assert((level as int + 5) * (level as int + 5) >= 16) by (nonlinear_arith)
                    requires
                        level as int >= 0,
                ;
                assert((level as int + 5) * (level as int + 5) <= 0x20000000 * 0x20000000) by (
                nonlinear_arith)
                    requires
                        0 <= level as int + 5 <= 0x20000000,
                ;
            }
            level = level + 1;
            let side: u64 = level as u64 + 4;
            total = total + side * side;
        }
        level
    }

    /// Awards experience points; the total must stay in range, so the
    /// addition can never wrap.
    pub fn gain(&mut self, amount: u32)
        requires
            old(self).0 + amount <= u32::MAX,
        ensures
            final(self).0 == old(self).0 + amount,
    {
        self.0 = self.0 + amount;
    }
}

} // verus!
