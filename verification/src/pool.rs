//! Packed per-type component storage: parallel dense arrays of values and
//! owning identities, with a sparse slot-index table giving O(1) lookup,
//! O(1) insert, and O(1) swap-with-last removal.

use vstd::prelude::*;

use crate::entity::{Entity, SLOT_LIMIT};

verus! {

/// Marker trait for component types.
pub trait Component {}

/// Stores the components of type `T` for each entity.
///
/// Lookups are keyed by the slot index of an identity alone; validating that
/// an identity is still alive is the registry's job at a higher layer.
#[derive(Debug, Clone)]
pub struct ComponentPool<T> {
    values: Vec<T>,
    entities: Vec<Entity>,
    index_lookup: Vec<Option<usize>>,
}

impl<T> ComponentPool<T> {
    /// The dense sequence of identities owning a component, index-aligned
    /// with `vals()`.
    pub closed spec fn owners(self) -> Seq<Entity> {
        self.entities@
    }

    /// The dense sequence of component values, index-aligned with `owners()`.
    pub closed spec fn vals(self) -> Seq<T> {
        self.values@
    }

    spec fn lookup(self) -> Seq<Option<usize>> {
        self.index_lookup@
    }

    /// Some identity with the given slot index owns a component in this pool.
    pub open spec fn contains_slot(self, slot: int) -> bool {
        exists|i: int|
            0 <= i < self.owners().len() && (#[trigger] self.owners()[i]).index == slot
    }

    /// The dense index of the component owned by the identity with the given
    /// slot index; meaningful only when `contains_slot(slot)` holds (the
    /// index is then unique for a well-formed pool).
    pub open spec fn index_of_slot(self, slot: int) -> int {
        choose|i: int|
            0 <= i < self.owners().len() && (#[trigger] self.owners()[i]).index == slot
    }

    /// The component value owned by the identity with the given slot index.
    pub open spec fn value_of_slot(self, slot: int) -> T
        recommends
            self.contains_slot(slot),
    {
        self.vals()[self.index_of_slot(slot)]
    }

    /// The identity recorded as owner for the given slot index.
    pub open spec fn owner_of_slot(self, slot: int) -> Entity
        recommends
            self.contains_slot(slot),
    {
        self.owners()[self.index_of_slot(slot)]
    }

    /// Internal consistency: dense arrays are parallel, every dense entry is
    /// registered in the sparse table, and every sparse entry points back at
    /// its dense entry.
    pub closed spec fn wf(self) -> bool {
        &&& self.values@.len() == self.entities@.len()
        &&& self.index_lookup@.len() == SLOT_LIMIT as int
        &&& (forall|i: int|
            0 <= i < self.entities@.len() ==> (#[trigger] self.entities@[i]).wf())
        &&& (forall|i: int|
            0 <= i < self.entities@.len() ==> {
                let lk = self.index_lookup@[(#[trigger] self.entities@[i]).index as int];
                lk is Some && lk->0 as int == i
            })
        &&& (forall|s: int|
            0 <= s < SLOT_LIMIT ==> match (#[trigger] self.index_lookup@[s]) {
                Some(j) => j < self.entities@.len() && self.entities@[j as int].index == s,
                None => true,
            })
    }

    /// For a well-formed pool the sparse table and the dense membership
    /// predicate agree, and `index_of_slot` is the registered dense index.
    proof fn lemma_lookup_agrees(self, slot: int)
        requires
            self.wf(),
            0 <= slot < SLOT_LIMIT,
        ensures
            self.contains_slot(slot) <==> self.lookup()[slot] is Some,
            self.contains_slot(slot) ==> {
                let i = self.index_of_slot(slot);
                &&& 0 <= i < self.owners().len()
                &&& self.owners()[i].index == slot
                &&& self.lookup()[slot] is Some
                &&& self.lookup()[slot]->0 as int == i
            },
    {
        if self.contains_slot(slot) {
            let i = self.index_of_slot(slot);
            assert(0 <= i < self.owners().len() && self.owners()[i].index == slot);
        }
        if self.lookup()[slot] is Some {
            let j = self.lookup()[slot]->0;
            assert(self.owners()[j as int].index == slot);
            assert(self.contains_slot(slot));
        }
    }

    /// In a well-formed pool no two dense entries share a slot index.
    pub proof fn lemma_owners_distinct(self, i: int, j: int)
        requires
            self.wf(),
            0 <= i < self.owners().len(),
            0 <= j < self.owners().len(),
            i != j,
        ensures
            self.owners()[i].index != self.owners()[j].index,
    {
        assert(self.lookup()[self.owners()[i].index as int]->0 as int == i);
        assert(self.lookup()[self.owners()[j].index as int]->0 as int == j);
    }

    /// `index_of_slot` inverts the dense owner sequence.
    pub proof fn lemma_index_of_owner(self, i: int)
        requires
            self.wf(),
            0 <= i < self.owners().len(),
        ensures
            self.contains_slot(self.owners()[i].index as int),
            self.index_of_slot(self.owners()[i].index as int) == i,
    {
        let s = self.owners()[i].index as int;
        assert(self.contains_slot(s));
        let j = self.index_of_slot(s);
        assert(self.lookup()[s]->0 as int == i);
        assert(self.lookup()[s]->0 as int == j);
    }

    /// The dense value and owner arrays of a well-formed pool are parallel.
    pub proof fn lemma_vals_len(self)
        requires
            self.wf(),
        ensures
            self.vals().len() == self.owners().len(),
    {
    }

    /// Every owner identity recorded in a well-formed pool is well formed.
    pub proof fn lemma_owners_wf(self)
        requires
            self.wf(),
        ensures
            forall|i: int| 0 <= i < self.owners().len() ==> (#[trigger] self.owners()[i]).wf(),
    {
    }

    /// A well-formed pool holds at most one component per slot, so its dense
    /// length is bounded by the number of slots.
    pub proof fn lemma_len_bounded(self)
        requires
            self.wf(),
        ensures
            self.owners().len() <= SLOT_LIMIT as int,
    {
        let n = self.owners().len() as int;
        let f = |i: int| self.owners()[i].index as int;
        let dom = vstd::set_lib::set_int_range(0, n);
        let img = dom.map(f);
        vstd::set_lib::lemma_int_range(0, n);
        assert(vstd::relations::injective_on(f, dom)) by {
            assert forall|i: int, j: int|
                #![trigger dom.contains(i), dom.contains(j)]
                dom.contains(i) && dom.contains(j) && f(i) == f(j) implies i == j by {
                if i != j {
                    self.lemma_owners_distinct(i, j);
                }
            }
        }
        vstd::set_lib::lemma_map_size(dom, img, f);
        let range = vstd::set_lib::set_int_range(0, SLOT_LIMIT as int);
        vstd::set_lib::lemma_int_range(0, SLOT_LIMIT as int);
        assert(img.subset_of(range)) by {
            assert forall|b: int| img.contains(b) implies range.contains(b) by {
                let i = choose|i: int| dom.contains(i) && f(i) == b;
                assert(self.owners()[i].wf());
            }
        }
        vstd::set_lib::lemma_len_subset(img, range);
    }

    /// Constructs a new, empty component pool.
    pub fn new() -> (p: Self)
        ensures
            p.wf(),
            p.owners().len() == 0,
            p.vals().len() == 0,
    {
        let values: Vec<T> = Vec::new();
        let entities: Vec<Entity> = Vec::new();
        let mut index_lookup: Vec<Option<usize>> = Vec::new();
        while index_lookup.len() < SLOT_LIMIT as usize
            invariant
                index_lookup@.len() <= SLOT_LIMIT as int,
                forall|s: int| 0 <= s < index_lookup@.len() ==> (#[trigger] index_lookup@[s]) is None,
            decreases SLOT_LIMIT as int - index_lookup@.len(),
        {
            index_lookup.push(None);
        }
        ComponentPool { values, entities, index_lookup }
    }

    /// Adds the component to the entity; the entity must not already have a
    /// component in this pool.
    pub fn insert(&mut self, entity: Entity, value: T)
        requires
            old(self).wf(),
            entity.wf(),
            !old(self).contains_slot(entity.index as int),
        ensures
            final(self).wf(),
            final(self).owners() == old(self).owners().push(entity),
            final(self).vals() == old(self).vals().push(value),
            forall|s: int|
                #![trigger final(self).contains_slot(s)]
                final(self).contains_slot(s) == (old(self).contains_slot(s) || s
                    == entity.index as int),
            final(self).value_of_slot(entity.index as int) == value,
            final(self).owner_of_slot(entity.index as int) == entity,
            forall|s: int|
                #![trigger old(self).value_of_slot(s)]
                #![trigger old(self).owner_of_slot(s)]
                #![trigger final(self).value_of_slot(s)]
                #![trigger final(self).owner_of_slot(s)]
                s != entity.index as int && old(self).contains_slot(s) ==> final(self).value_of_slot(s) == old(self).value_of_slot(s) && final(self).owner_of_slot(s)
                    == old(self).owner_of_slot(s) && final(self).index_of_slot(s) == old(self).index_of_slot(s),
    {
        let index = self.values.len();
        let slot = entity.index() as usize;
        self.index_lookup[slot] = Some(index);
        self.entities.push(entity);
        self.values.push(value);
        proof {
            let newp = *self;
            let oldp = *old(self);
            assert forall|i: int| 0 <= i < newp.entities@.len() implies {
                let lk = newp.index_lookup@[(#[trigger] newp.entities@[i]).index as int];
                lk is Some && lk->0 as int == i
            } by {
                if i < oldp.entities@.len() {
                    assert({
                        let lk = oldp.index_lookup@[(oldp.entities@[i]).index as int];
                        lk is Some && lk->0 as int == i
                    });
                    assert(oldp.entities@[i].index != entity.index) by {
                        if oldp.entities@[i].index == entity.index {
                            assert(oldp.contains_slot(entity.index as int));
                        }
                    }
                }
            }
            assert(newp.wf());
            assert forall|s: int| newp.contains_slot(s) == (oldp.contains_slot(s) || s
                == entity.index as int) by {
                if newp.contains_slot(s) {
                    let i = choose|i: int|
                        0 <= i < newp.owners().len() && (#[trigger] newp.owners()[i]).index == s;
                    if i < oldp.owners().len() {
                        assert(oldp.contains_slot(s));
                    }
                } else {
                    if oldp.contains_slot(s) {
                        let i = choose|i: int|
                            0 <= i < oldp.owners().len() && (#[trigger] oldp.owners()[i]).index
                                == s;
                        assert(newp.owners()[i].index == s);
                    }
                    assert(s != entity.index as int) by {
                        if s == entity.index as int {
                            assert(newp.owners()[oldp.owners().len() as int].index == s);
                        }
                    }
                }
            }
            newp.lemma_lookup_agrees(entity.index as int);
            assert(newp.index_of_slot(entity.index as int) == oldp.owners().len());
            assert forall|s: int|
                s != entity.index as int && oldp.contains_slot(s) implies newp.value_of_slot(s)
                == oldp.value_of_slot(s) && newp.owner_of_slot(s) == oldp.owner_of_slot(s)
                && newp.index_of_slot(s) == oldp.index_of_slot(s) by {
                if 0 <= s < SLOT_LIMIT {
                    oldp.lemma_lookup_agrees(s);
                    newp.lemma_lookup_agrees(s);
                    let i = oldp.index_of_slot(s);
                    assert(newp.lookup()[s] == oldp.lookup()[s]);
                    assert(newp.index_of_slot(s) == i);
                } else {
                    let i = choose|i: int|
                        0 <= i < oldp.owners().len() && (#[trigger] oldp.owners()[i]).index == s;
                    assert(oldp.owners()[i].wf());
                }
            }
        }
    }

    /// Tries to remove the component from the entity via swap-with-last;
    /// returns `true` if the component used to exist.
    pub fn try_remove(&mut self, entity: Entity) -> (removed: bool)
        requires
            old(self).wf(),
            entity.wf(),
        ensures
            final(self).wf(),
            removed == old(self).contains_slot(entity.index as int),
            !removed ==> *final(self) == *old(self),
            removed ==> ({
                let i = old(self).index_of_slot(entity.index as int);
                &&& final(self).owners() == old(self).owners().update(
                    i,
                    old(self).owners().last(),
                ).drop_last()
                &&& final(self).vals() == old(self).vals().update(
                    i,
                    old(self).vals().last(),
                ).drop_last()
            }),
            forall|s: int|
                #![trigger final(self).contains_slot(s)]
                final(self).contains_slot(s) == (old(self).contains_slot(s) && s
                    != entity.index as int),
            forall|s: int|
                #![trigger old(self).value_of_slot(s)]
                #![trigger old(self).owner_of_slot(s)]
                #![trigger final(self).value_of_slot(s)]
                #![trigger final(self).owner_of_slot(s)]
                s != entity.index as int && old(self).contains_slot(s) ==> final(self).value_of_slot(s) == old(self).value_of_slot(s) && final(self).owner_of_slot(s)
                    == old(self).owner_of_slot(s),
    {
        let slot = entity.index() as usize;
        let index = match self.index_lookup[slot] {
            Some(index) => index,
            None => {
                proof {
                    old(self).lemma_lookup_agrees(slot as int);
                }
                return false;
            },
        };
        proof {
            old(self).lemma_lookup_agrees(slot as int);
            assert(old(self).index_of_slot(slot as int) == index as int);
        }
        let last = self.entities[self.entities.len() - 1];
        let last_slot = last.index() as usize;
        self.values.swap_remove(index);
        self.entities.swap_remove(index);
        self.index_lookup[last_slot] = Some(index);
        self.index_lookup[slot] = None;
        proof {
            let newp = *self;
            let oldp = *old(self);
            let n = oldp.owners().len() as int;
            let i = index as int;
            assert(oldp.owners()[n - 1] == last);
            assert(oldp.lookup()[last_slot as int] is Some && oldp.lookup()[
                last_slot as int]->0 as int == n - 1) by {
                oldp.lemma_index_of_owner(n - 1);
                oldp.lemma_lookup_agrees(last_slot as int);
            }
            assert forall|k: int| 0 <= k < newp.entities@.len() implies {
                let lk = newp.index_lookup@[(#[trigger] newp.entities@[k]).index as int];
                lk is Some && lk->0 as int == k
            } by {
                if k == i {
                    assert(newp.entities@[k] == last);
                } else {
                    assert(newp.entities@[k] == oldp.entities@[k]);
                    assert(oldp.lookup()[oldp.entities@[k].index as int]->0 as int == k);
                    assert(oldp.entities@[k].index != entity.index) by {
                        if oldp.entities@[k].index == entity.index {
                            assert(oldp.lookup()[slot as int]->0 as int == k);
                        }
                    }
                    assert(oldp.entities@[k].index != last.index || k == n - 1 || i == n - 1)
                        by {
                        if oldp.entities@[k].index == last.index {
                            assert(oldp.lookup()[last_slot as int]->0 as int == k);
                        }
                    }
                }
            }
            assert forall|s: int| 0 <= s < SLOT_LIMIT implies match (#[trigger] newp.index_lookup@[s]) {
                Some(j) => j < newp.entities@.len() && newp.entities@[j as int].index == s,
                None => true,
            } by {
                if s == slot as int {
                } else if s == last_slot as int {
                    if i < newp.entities@.len() {
                        assert(newp.entities@[i] == last);
                    } else {
                        assert(i == n - 1);
                    }
                } else {
                    match oldp.index_lookup@[s] {
                        Some(j) => {
                            assert(oldp.entities@[j as int].index == s);
                            assert(j as int != i) by {
                                if j as int == i {
                                    assert(oldp.lookup()[s]->0 as int == i);
                                    assert(oldp.entities@[i].index == s);
                                    assert(oldp.lookup()[slot as int]->0 as int == i);
                                }
                            }
                            assert(j as int != n - 1) by {
                                if j as int == n - 1 {
                                    assert(oldp.entities@[n - 1].index == s);
                                }
                            }
                            assert(newp.entities@[j as int] == oldp.entities@[j as int]);
                        },
                        None => {},
                    }
                }
            }
            assert(newp.wf());
            assert forall|s: int| newp.contains_slot(s) == (oldp.contains_slot(s) && s
                != slot as int) by {
                if 0 <= s < SLOT_LIMIT {
                    oldp.lemma_lookup_agrees(s);
                    newp.lemma_lookup_agrees(s);
                    if s == last_slot as int && i != n - 1 {
                        assert(newp.lookup()[s] == Some(index));
                        assert(oldp.lookup()[s]->0 as int == n - 1);
                    }
                } else {
                    assert(!newp.contains_slot(s)) by {
                        if newp.contains_slot(s) {
                            let k = choose|k: int|
                                0 <= k < newp.owners().len() && (#[trigger] newp.owners()[k]).index
                                    == s;
                            assert(newp.owners()[k].wf());
                        }
                    }
                    assert(!oldp.contains_slot(s)) by {
                        if oldp.contains_slot(s) {
                            let k = choose|k: int|
                                0 <= k < oldp.owners().len() && (#[trigger] oldp.owners()[k]).index
                                    == s;
                            assert(oldp.owners()[k].wf());
                        }
                    }
                }
            }
            assert forall|s: int|
                s != slot as int && oldp.contains_slot(s) implies newp.value_of_slot(s)
                == oldp.value_of_slot(s) && newp.owner_of_slot(s) == oldp.owner_of_slot(s) by {
                oldp.lemma_lookup_agrees(s);
                newp.lemma_lookup_agrees(s);
                let jo = oldp.index_of_slot(s);
                let jn = newp.index_of_slot(s);
                if s == last_slot as int {
                    assert(jo == n - 1);
                    if i == n - 1 {
                        assert(oldp.lookup()[s]->0 as int == i);
                    } else {
                        assert(newp.lookup()[s] == Some(index));
                        assert(jn == i);
                        assert(newp.owners()[jn] == last);
                        assert(newp.vals()[jn] == oldp.vals()[n - 1]);
                    }
                } else {
                    assert(oldp.lookup()[s] == newp.lookup()[s]);
                    assert(jn == jo);
                    assert(jo != i && jo != n - 1) by {
                        if jo == i {
                            assert(oldp.owners()[jo].index == s);
                            assert(oldp.lookup()[slot as int]->0 as int == jo);
                        }
                        if jo == n - 1 {
                            assert(oldp.owners()[n - 1].index == s);
                        }
                    }
                }
            }
        }
        true
    }

    /// Removes the component from the entity; the entity must have the
    /// component.
    pub fn remove(&mut self, entity: Entity)
        requires
            old(self).wf(),
            entity.wf(),
            old(self).contains_slot(entity.index as int),
        ensures
            final(self).wf(),
            ({
                let i = old(self).index_of_slot(entity.index as int);
                &&& final(self).owners() == old(self).owners().update(
                    i,
                    old(self).owners().last(),
                ).drop_last()
                &&& final(self).vals() == old(self).vals().update(
                    i,
                    old(self).vals().last(),
                ).drop_last()
            }),
            forall|s: int|
                #![trigger final(self).contains_slot(s)]
                final(self).contains_slot(s) == (old(self).contains_slot(s) && s
                    != entity.index as int),
            forall|s: int|
                #![trigger old(self).value_of_slot(s)]
                #![trigger old(self).owner_of_slot(s)]
                #![trigger final(self).value_of_slot(s)]
                #![trigger final(self).owner_of_slot(s)]
                s != entity.index as int && old(self).contains_slot(s) ==> final(self).value_of_slot(s) == old(self).value_of_slot(s) && final(self).owner_of_slot(s)
                    == old(self).owner_of_slot(s),
    {
        let _removed = self.try_remove(entity);
    }

    /// Returns `true` if the supplied entity has a component in this pool.
    pub fn contains_entity(&self, entity: Entity) -> (r: bool)
        requires
            self.wf(),
            entity.wf(),
        ensures
            r == self.contains_slot(entity.index as int),
    {
        proof {
            self.lemma_lookup_agrees(entity.index as int);
        }
        self.index_lookup[entity.index() as usize].is_some()
    }

    /// Returns a reference to the component for the supplied entity, or
    /// `None` if the entity has no component in this pool.
    pub fn get(&self, entity: Entity) -> (r: Option<&T>)
        requires
            self.wf(),
            entity.wf(),
        ensures
            match r {
                Some(v) => self.contains_slot(entity.index as int) && *v == self.value_of_slot(
                    entity.index as int,
                ),
                None => !self.contains_slot(entity.index as int),
            },
    {
        proof {
            self.lemma_lookup_agrees(entity.index as int);
        }
        match self.index_lookup[entity.index() as usize] {
            Some(index) => Some(&self.values[index]),
            None => None,
        }
    }

    /// Returns a mutable reference to the component for the supplied entity;
    /// the entity must have a component in this pool.
    pub fn get_mut(&mut self, entity: Entity) -> (v: &mut T)
        requires
            old(self).wf(),
            entity.wf(),
            old(self).contains_slot(entity.index as int),
        ensures
            final(self).wf(),
            *v == old(self).value_of_slot(entity.index as int),
            final(self).owners() == old(self).owners(),
            final(self).vals() == old(self).vals().update(
                old(self).index_of_slot(entity.index as int),
                *final(v),
            ),
    {
        proof {
            old(self).lemma_lookup_agrees(entity.index as int);
        }
        let index = match self.index_lookup[entity.index() as usize] {
            Some(index) => index,
            None => unreached(),
        };
        &mut self.values[index]
    }

    /// Returns the number of components stored in the pool.
    pub fn len(&self) -> (n: usize)
        ensures
            n == self.owners().len(),
    {
        self.entities.len()
    }

    /// Returns the dense sequence of identities with a component, in
    /// insertion order modulo swap-removals.
    pub fn entities(&self) -> (r: &Vec<Entity>)
        ensures
            r@ == self.owners(),
    {
        &self.entities
    }

    /// Returns the dense sequence of component values, index-aligned with
    /// `entities()`.
    pub fn values(&self) -> (r: &Vec<T>)
        ensures
            r@ == self.vals(),
    {
        &self.values
    }

    /// Returns the identity at the given dense index; together with
    /// `value_at` this gives the paired iteration over (identity, value).
    pub fn entity_at(&self, i: usize) -> (e: Entity)
        requires
            i < self.owners().len(),
        ensures
            e == self.owners()[i as int],
    {
        self.entities[i]
    }

    /// Returns a reference to the component value at the given dense index.
    pub fn value_at(&self, i: usize) -> (v: &T)
        requires
            self.wf(),
            i < self.owners().len(),
        ensures
            *v == self.vals()[i as int],
    {
        proof {
            self.lemma_vals_len();
        }
        &self.values[i]
    }

    /// Returns a mutable reference to the component value at the given dense
    /// index; the owners are untouched, so dense iteration stays aligned.
    pub fn value_at_mut(&mut self, i: usize) -> (v: &mut T)
        requires
            old(self).wf(),
            i < old(self).owners().len(),
        ensures
            final(self).wf(),
            *v == old(self).vals()[i as int],
            final(self).owners() == old(self).owners(),
            final(self).vals() == old(self).vals().update(i as int, *final(v)),
    {
        proof {
            old(self).lemma_vals_len();
        }
        &mut self.values[i]
    }

    /// Reserves capacity for at least `additional` more components.
    pub fn reserve(&mut self, additional: usize)
        requires
            old(self).wf(),
        ensures
            final(self).wf(),
            final(self).owners() == old(self).owners(),
            final(self).vals() == old(self).vals(),
    {
        self.values.reserve(additional);
        self.entities.reserve(additional);
    }

    /// Shrinks the capacity of the component pool with a lower bound; the
    /// contents are unchanged.
    pub fn shrink_to(&mut self, min_capacity: usize)
        requires
            old(self).wf(),
        ensures
            final(self).wf(),
            final(self).owners() == old(self).owners(),
            final(self).vals() == old(self).vals(),
    {
        vec_shrink_to(&mut self.values, min_capacity);
        vec_shrink_to(&mut self.entities, min_capacity);
    }

    /// Shrinks the capacity of the component pool as much as possible; the
    /// contents are unchanged.
    pub fn shrink_to_fit(&mut self)
        requires
            old(self).wf(),
        ensures
            final(self).wf(),
            final(self).owners() == old(self).owners(),
            final(self).vals() == old(self).vals(),
    {
        vec_shrink_to_fit(&mut self.values);
        vec_shrink_to_fit(&mut self.entities);
    }
}

/// A pool whose dense arrays extend a well-formed pool by one fresh entity
/// holds that entity's value under its slot index: looking an identity up
/// right after inserting a value for it yields exactly that value.
pub proof fn lemma_insert_then_lookup<T>(p: ComponentPool<T>, q: ComponentPool<T>, e: Entity, v: T)
    requires
        p.wf(),
        q.wf(),
        e.wf(),
        !p.contains_slot(e.index as int),
        q.owners() == p.owners().push(e),
        q.vals() == p.vals().push(v),
    ensures
        q.contains_slot(e.index as int),
        q.value_of_slot(e.index as int) == v,
        q.owner_of_slot(e.index as int) == e,
{
    p.lemma_vals_len();
    q.lemma_vals_len();
    let n = p.owners().len() as int;
    assert(q.owners()[n] == e);
    q.lemma_index_of_owner(n);
}

/// Relies on std's Vec::shrink_to: it only changes capacity, never length or
/// contents.
#[verifier::external_body]
fn vec_shrink_to<T>(v: &mut Vec<T>, min_capacity: usize)
    ensures
        final(v)@ == old(v)@,
{
    v.shrink_to(min_capacity)
}

/// Relies on std's Vec::shrink_to_fit: it only changes capacity, never length
/// or contents.
#[verifier::external_body]
fn vec_shrink_to_fit<T>(v: &mut Vec<T>)
    ensures
        final(v)@ == old(v)@,
{
    v.shrink_to_fit()
}

} // verus!
