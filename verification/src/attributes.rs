//! Player attributes: a small fixed table of integer stats addressed by an
//! attribute kind.

use vstd::prelude::*;

verus! {

/// Number of attribute kinds.
pub const ATTR_COUNT: usize = 7;

/// The kinds of player attributes.
#[derive(Debug, Clone, Copy, PartialEq, Eq, Structural, Hash)]
pub enum Attr {
    /// Attack damage.
    Damage,
    /// Attack speed.
    Speed,
    /// Crit chance.
    Crit,
    /// Health points.
    Health,
    /// Health regen.
    Regen,
    /// Lifesteal on attack chance.
    Lifesteal,
    /// Attack range.
    Range,
}

impl Attr {
    /// The position of the attribute in the stat table.
    pub open spec fn spec_slot(self) -> int {
        match self {
            Attr::Damage => 0,
            Attr::Speed => 1,
            Attr::Crit => 2,
            Attr::Health => 3,
            Attr::Regen => 4,
            Attr::Lifesteal => 5,
            Attr::Range => 6,
        }
    }

    /// Returns the position of the attribute in the stat table.
    pub fn slot(self) -> (r: usize)
        ensures
            r as int == self.spec_slot(),
            r < ATTR_COUNT,
    {
        match self {
            Attr::Damage => 0,
            Attr::Speed => 1,
            Attr::Crit => 2,
            Attr::Health => 3,
            Attr::Regen => 4,
            Attr::Lifesteal => 5,
            Attr::Range => 6,
        }
    }
}

/// A table with one integer value per attribute kind.
#[derive(Debug, Clone, Copy, PartialEq, Eq, Hash)]
pub struct Attrs(pub [i32; 7]);

impl Attrs {
    /// The attribute values as a sequence indexed by `Attr::spec_slot`.
    pub open spec fn values(self) -> Seq<i32> {
        self.0@
    }

    /// Constructs a table with every attribute at zero.
    pub fn new() -> (r: Attrs)
        ensures
            forall|k: int| 0 <= k < ATTR_COUNT ==> #[trigger] r.values()[k] == 0,
    {
        Attrs([0, 0, 0, 0, 0, 0, 0])
    }

    /// Constructs a table with the given attribute at `value` and every
    /// other attribute at zero.
    pub fn from_attr(stat: Attr, value: i32) -> (r: Attrs)
        ensures
            r.values()[stat.spec_slot()] == value,
            forall|k: int|
                0 <= k < ATTR_COUNT && k != stat.spec_slot() ==> #[trigger] r.values()[k] == 0,
    {
        let mut r = Attrs::new();
        r.set(stat, value);
        r
    }

    /// Returns the value of the given attribute.
    pub fn get(&self, stat: Attr) -> (v: i32)
        ensures
            v == self.values()[stat.spec_slot()],
    {
        self.0[stat.slot()]
    }

    /// Sets the value of the given attribute.
    pub fn set(&mut self, stat: Attr, value: i32)
        ensures
            final(self).values() == old(self).values().update(stat.spec_slot(), value),
    {
        let k = stat.slot();
        self.0[k] = value;
    }

    /// Adds the two tables element-wise; each sum must stay in range, so
    /// the addition can never wrap.
    pub fn add(self, rhs: Attrs) -> (r: Attrs)
        requires
            forall|k: int|
                0 <= k < ATTR_COUNT ==> i32::MIN <= #[trigger] (self.values()[k]
                    + rhs.values()[k]) <= i32::MAX,
        ensures
            forall|k: int|
                0 <= k < ATTR_COUNT ==> #[trigger] r.values()[k] == self.values()[k]
                    + rhs.values()[k],
    {
        let mut out = Attrs::new();
        out.set(Attr::Damage, self.get(Attr::Damage) + rhs.get(Attr::Damage));
        out.set(Attr::Speed, self.get(Attr::Speed) + rhs.get(Attr::Speed));
        out.set(Attr::Crit, self.get(Attr::Crit) + rhs.get(Attr::Crit));
        out.set(Attr::Health, self.get(Attr::Health) + rhs.get(Attr::Health));
        out.set(Attr::Regen, self.get(Attr::Regen) + rhs.get(Attr::Regen));
        out.set(Attr::Lifesteal, self.get(Attr::Lifesteal) + rhs.get(Attr::Lifesteal));
        out.set(Attr::Range, self.get(Attr::Range) + rhs.get(Attr::Range));
        out
    }

    /// The player's maximum health: the health attribute, but at least one.
    pub fn max_hp(&self) -> (r: u32)
        ensures
            r as int == if self.values()[Attr::Health.spec_slot()] >= 1 {
                self.values()[Attr::Health.spec_slot()] as int
            } else {
                1
            },
    {
        let h = self.get(Attr::Health);
        if h >= 1 {
            h as u32
        } else {
            1
        }
    }
}

} // verus!
