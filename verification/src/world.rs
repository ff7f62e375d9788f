//! The registry (world): owns slot allocation and recycling for entity
//! identities and one packed pool per registered component kind, and
//! coordinates cross-pool destruction.
//!
//! Rather than a dynamic, type-erased pool collection, the registry is a
//! closed interface: one pool field per component kind, selected by
//! `ComponentKind`. Shared-versus-exclusive access to a pool is enforced
//! statically by borrowing the pool field.

use vstd::prelude::*;

use crate::components::{Bullet, Collider, Enemy, Hp, Sprite, Transform};
use crate::entity::{Entity, SLOT_LIMIT};
use crate::pool::ComponentPool;

verus! {

/// Record storing the current state of the entity slot with some index.
#[derive(Debug, Clone, Copy, PartialEq, Eq, Structural, Hash)]
pub struct EntityRecord {
    pub is_alive: bool,
    pub generation: u16,
}

/// The closed set of component kinds the registry owns a pool for.
#[derive(Debug, Clone, Copy, PartialEq, Eq, Structural, Hash)]
pub enum ComponentKind {
    Transform,
    Collider,
    Sprite,
    Hp,
    Enemy,
    Bullet,
}

/// Some entity of the sequence has the given slot index.
pub open spec fn slot_among(destroyed: Seq<Entity>, s: int) -> bool {
    exists|j: int| 0 <= j < destroyed.len() && (#[trigger] destroyed[j]).index as int == s
}

/// Extending the prefix by one entity extends the covered slot set by that
/// entity's slot.
pub proof fn lemma_slot_among_take_step(destroyed: Seq<Entity>, k: int, s: int)
    requires
        0 <= k < destroyed.len(),
    ensures
        slot_among(destroyed.take(k + 1), s) == (slot_among(destroyed.take(k), s) || destroyed[
            k].index as int == s),
{
    assert(destroyed.take(k + 1) =~= destroyed.take(k).push(destroyed[k]));
    if slot_among(destroyed.take(k + 1), s) {
        let j = choose|j: int|
            0 <= j < k + 1 && (#[trigger] destroyed.take(k + 1)[j]).index as int == s;
        if j < k {
            assert(destroyed.take(k)[j].index as int == s);
            assert(slot_among(destroyed.take(k), s));
        } else {
            assert(destroyed[k].index as int == s);
        }
    }
    if slot_among(destroyed.take(k), s) {
        let j = choose|j: int|
            0 <= j < k && (#[trigger] destroyed.take(k)[j]).index as int == s;
        assert(destroyed.take(k + 1)[j].index as int == s);
        assert(slot_among(destroyed.take(k + 1), s));
    }
    if destroyed[k].index as int == s {
        assert(destroyed.take(k + 1)[k].index as int == s);
        assert(slot_among(destroyed.take(k + 1), s));
    }
}

/// After a cascade, a pool contains exactly its old components whose owner
/// slot is not among the destroyed identities, with values and owners of the
/// survivors unchanged.
pub open spec fn pool_purged<T>(
    oldp: ComponentPool<T>,
    newp: ComponentPool<T>,
    destroyed: Seq<Entity>,
) -> bool {
    &&& (forall|s: int|
        #![trigger newp.contains_slot(s)]
        #![trigger oldp.contains_slot(s)]
        newp.contains_slot(s) == (oldp.contains_slot(s) && !slot_among(destroyed, s)))
    &&& (forall|s: int|
        #![trigger newp.value_of_slot(s)]
        #![trigger newp.owner_of_slot(s)]
        #![trigger oldp.value_of_slot(s)]
        #![trigger oldp.owner_of_slot(s)]
        oldp.contains_slot(s) && !slot_among(destroyed, s) ==> newp.value_of_slot(s)
            == oldp.value_of_slot(s) && newp.owner_of_slot(s) == oldp.owner_of_slot(s))
}

/// Removes the component of every listed identity from the pool, tolerating
/// identities that have no component here.
fn purge_pool<T>(pool: &mut ComponentPool<T>, entities: &[Entity])
    requires
        old(pool).wf(),
        forall|i: int| 0 <= i < entities@.len() ==> (#[trigger] entities@[i]).wf(),
    ensures
        final(pool).wf(),
        pool_purged(*old(pool), *final(pool), entities@),
{
    let n = entities.len();
    let mut j: usize = 0;
    while j < n
        invariant
            0 <= j <= n,
            n == entities@.len(),
            forall|i: int| 0 <= i < entities@.len() ==> (#[trigger] entities@[i]).wf(),
            pool.wf(),
            forall|s: int|
                #![trigger pool.contains_slot(s)]
                pool.contains_slot(s) == (old(pool).contains_slot(s) && !slot_among(
                    entities@.take(j as int),
                    s,
                )),
            forall|s: int|
                #![trigger pool.value_of_slot(s)]
                #![trigger pool.owner_of_slot(s)]
                old(pool).contains_slot(s) && !slot_among(entities@.take(j as int), s)
                    ==> pool.value_of_slot(s) == old(pool).value_of_slot(s)
                    && pool.owner_of_slot(s) == old(pool).owner_of_slot(s),
        decreases n - j,
    {
        let e = entities[j];
        let ghost before = *pool;
        let _removed = pool.try_remove(e);
        proof {
            assert forall|s: int| pool.contains_slot(s) == (old(pool).contains_slot(s)
                && !slot_among(entities@.take(j + 1 as int), s)) by {
                lemma_slot_among_take_step(entities@, j as int, s);
                assert(pool.contains_slot(s) == (before.contains_slot(s) && s
                    != e.index as int));
            }
            assert forall|s: int|
                old(pool).contains_slot(s) && !slot_among(entities@.take(j + 1 as int), s)
                implies pool.value_of_slot(s) == old(pool).value_of_slot(s)
                && pool.owner_of_slot(s) == old(pool).owner_of_slot(s) by {
                lemma_slot_among_take_step(entities@, j as int, s);
                assert(s != e.index as int);
                assert(before.contains_slot(s));
                assert(pool.value_of_slot(s) == before.value_of_slot(s));
                assert(pool.owner_of_slot(s) == before.owner_of_slot(s));
            }
        }
        j += 1;
    }
    proof {
        assert(entities@.take(n as int) =~= entities@);
    }
}

/// A registry storing the state of entities and their components.
///
/// Component pools are public fields: the shared-versus-exclusive access
/// discipline is enforced by borrowing the fields, so a conflicting access
/// is rejected before the program runs.
pub struct World {
    pub records: Vec<EntityRecord>,
    pub free_indices: Vec<u16>,
    pub registered_transforms: bool,
    pub registered_colliders: bool,
    pub registered_sprites: bool,
    pub registered_hps: bool,
    pub registered_enemies: bool,
    pub registered_bullets: bool,
    pub transforms: ComponentPool<Transform>,
    pub colliders: ComponentPool<Collider>,
    pub sprites: ComponentPool<Sprite>,
    pub hps: ComponentPool<Hp>,
    pub enemies: ComponentPool<Enemy>,
    pub bullets: ComponentPool<Bullet>,
}

impl World {
    /// Whether the slot with the given index is currently alive.
    pub closed spec fn slot_alive(self, slot: int) -> bool {
        self.records@[slot].is_alive
    }

    /// The current generation of the slot with the given index.
    pub closed spec fn slot_generation(self, slot: int) -> u16 {
        self.records@[slot].generation
    }

    /// The queue of recyclable slot indices; allocation takes from the back,
    /// freed slots enter at the front.
    pub closed spec fn free_list(self) -> Seq<u16> {
        self.free_indices@
    }

    /// Whether a pool has been registered for the given component kind.
    pub closed spec fn registered(self, kind: ComponentKind) -> bool {
        match kind {
            ComponentKind::Transform => self.registered_transforms,
            ComponentKind::Collider => self.registered_colliders,
            ComponentKind::Sprite => self.registered_sprites,
            ComponentKind::Hp => self.registered_hps,
            ComponentKind::Enemy => self.registered_enemies,
            ComponentKind::Bullet => self.registered_bullets,
        }
    }

    /// An identity is live iff its slot is alive and the generations match.
    pub open spec fn entity_live(self, e: Entity) -> bool {
        &&& e.wf()
        &&& self.slot_alive(e.index as int)
        &&& self.slot_generation(e.index as int) == e.generation
    }

    spec fn free_contains(self, s: int) -> bool {
        exists|i: int|
            0 <= i < self.free_indices@.len() && (#[trigger] self.free_indices@[i]) as int == s
    }

    /// Slot-table consistency: the record table has one entry per slot, all
    /// generations stay below the sentinel, and the free list holds exactly
    /// the dead slots, each at most once.
    pub closed spec fn wf(self) -> bool {
        &&& self.records@.len() == SLOT_LIMIT as int
        &&& (forall|s: int|
            0 <= s < SLOT_LIMIT ==> (#[trigger] self.records@[s]).generation < SLOT_LIMIT)
        &&& (forall|i: int|
            0 <= i < self.free_indices@.len() ==> (#[trigger] self.free_indices@[i]) < SLOT_LIMIT)
        &&& (forall|i: int|
            0 <= i < self.free_indices@.len() ==> !self.records@[(
            #[trigger] self.free_indices@[i]) as int].is_alive)
        &&& (forall|i: int, j: int|
            0 <= i < j < self.free_indices@.len() ==> (#[trigger] self.free_indices@[i]) != (
            #[trigger] self.free_indices@[j]))
        &&& (forall|s: int|
            0 <= s < SLOT_LIMIT && !(#[trigger] self.records@[s]).is_alive ==> self.free_contains(s))
    }

    /// Every pool is internally consistent.
    pub open spec fn pools_wf(self) -> bool {
        &&& self.transforms.wf()
        &&& self.colliders.wf()
        &&& self.sprites.wf()
        &&& self.hps.wf()
        &&& self.enemies.wf()
        &&& self.bullets.wf()
    }

    /// Creates a new entity registry: all slots dead at generation zero, the
    /// free queue holding every slot, and no component kind registered.
    pub fn new() -> (w: World)
        ensures
            w.wf(),
            w.pools_wf(),
            w.free_list().len() == SLOT_LIMIT as int,
            forall|i: int| 0 <= i < SLOT_LIMIT ==> (#[trigger] w.free_list()[i]) as int == i,
            forall|s: int|
                0 <= s < SLOT_LIMIT ==> !(#[trigger] w.slot_alive(s)) && w.slot_generation(s)
                    == 0,
            forall|k: ComponentKind| !(#[trigger] w.registered(k)),
            w.transforms.owners().len() == 0,
            w.colliders.owners().len() == 0,
            w.sprites.owners().len() == 0,
            w.hps.owners().len() == 0,
            w.enemies.owners().len() == 0,
            w.bullets.owners().len() == 0,
    {
        let mut records: Vec<EntityRecord> = Vec::new();
        while records.len() < SLOT_LIMIT as usize
            invariant
                records@.len() <= SLOT_LIMIT as int,
                forall|s: int|
                    0 <= s < records@.len() ==> (#[trigger] records@[s]) == (EntityRecord {
                        is_alive: false,
                        generation: 0,
                    }),
            decreases SLOT_LIMIT as int - records@.len(),
        {
            records.push(EntityRecord { is_alive: false, generation: 0 });
        }
        let mut free_indices: Vec<u16> = Vec::new();
        let mut i: u16 = 0;
        while i < SLOT_LIMIT
            invariant
                0 <= i <= SLOT_LIMIT,
                free_indices@.len() == i as int,
                forall|k: int| 0 <= k < i ==> (#[trigger] free_indices@[k]) as int == k,
            decreases SLOT_LIMIT as int - i as int,
        {
            free_indices.push(i);
            i += 1;
        }
        let w = World {
            records,
            free_indices,
            registered_transforms: false,
            registered_colliders: false,
            registered_sprites: false,
            registered_hps: false,
            registered_enemies: false,
            registered_bullets: false,
            transforms: ComponentPool::new(),
            colliders: ComponentPool::new(),
            sprites: ComponentPool::new(),
            hps: ComponentPool::new(),
            enemies: ComponentPool::new(),
            bullets: ComponentPool::new(),
        };
        proof {
            assert forall|s: int|
                0 <= s < SLOT_LIMIT && !(#[trigger] w.records@[s]).is_alive
                implies w.free_contains(s) by {
                assert(w.free_indices@[s] as int == s);
            }
            assert forall|i: int, j: int|
                0 <= i < j < w.free_indices@.len() implies (#[trigger] w.free_indices@[i]) != (
            #[trigger] w.free_indices@[j]) by {
                assert(w.free_indices@[i] as int == i);
                assert(w.free_indices@[j] as int == j);
            }
            assert(w.wf());
        }
        w
    }

    /// Registers the specified component kind: installs a fresh, empty pool
    /// if the kind has not been registered yet, and does nothing otherwise.
    pub fn register_type(&mut self, kind: ComponentKind)
        ensures
            final(self).registered(kind),
            forall|k: ComponentKind|
                k != kind ==> #[trigger] final(self).registered(k) == old(self).registered(k),
            old(self).registered(kind) ==> *final(self) == *old(self),
            final(self).free_list() == old(self).free_list(),
            forall|s: int|
                0 <= s < SLOT_LIMIT ==> #[trigger] final(self).slot_alive(s) == old(self).slot_alive(s) && final(self).slot_generation(s) == old(self).slot_generation(s),
            !old(self).registered(kind) ==> match kind {
                ComponentKind::Transform => final(self).transforms.wf() && final(self).transforms.owners().len() == 0,
                ComponentKind::Collider => final(self).colliders.wf() && final(self).colliders.owners().len() == 0,
                ComponentKind::Sprite => final(self).sprites.wf() && final(self).sprites.owners().len() == 0,
                ComponentKind::Hp => final(self).hps.wf() && final(self).hps.owners().len() == 0,
                ComponentKind::Enemy => final(self).enemies.wf() && final(self).enemies.owners().len() == 0,
                ComponentKind::Bullet => final(self).bullets.wf() && final(self).bullets.owners().len() == 0,
            },
            kind != ComponentKind::Transform ==> final(self).transforms == old(self).transforms,
            kind != ComponentKind::Collider ==> final(self).colliders == old(self).colliders,
            kind != ComponentKind::Sprite ==> final(self).sprites == old(self).sprites,
            kind != ComponentKind::Hp ==> final(self).hps == old(self).hps,
            kind != ComponentKind::Enemy ==> final(self).enemies == old(self).enemies,
            kind != ComponentKind::Bullet ==> final(self).bullets == old(self).bullets,
            old(self).wf() ==> final(self).wf(),
    {
        match kind {
            ComponentKind::Transform => {
                if !self.registered_transforms {
                    self.registered_transforms = true;
                    self.transforms = ComponentPool::new();
                }
            },
            ComponentKind::Collider => {
                if !self.registered_colliders {
                    self.registered_colliders = true;
                    self.colliders = ComponentPool::new();
                }
            },
            ComponentKind::Sprite => {
                if !self.registered_sprites {
                    self.registered_sprites = true;
                    self.sprites = ComponentPool::new();
                }
            },
            ComponentKind::Hp => {
                if !self.registered_hps {
                    self.registered_hps = true;
                    self.hps = ComponentPool::new();
                }
            },
            ComponentKind::Enemy => {
                if !self.registered_enemies {
                    self.registered_enemies = true;
                    self.enemies = ComponentPool::new();
                }
            },
            ComponentKind::Bullet => {
                if !self.registered_bullets {
                    self.registered_bullets = true;
                    self.bullets = ComponentPool::new();
                }
            },
        }
    }

    /// Constructs a new entity: pops a recyclable slot from the back of the
    /// free queue, marks it alive and returns the identity carrying the
    /// slot's current generation. Exhausting the hard cap on simultaneous
    /// identities is a fatal caller error, excluded here by precondition.
    pub fn create_entity(&mut self) -> (e: Entity)
        requires
            old(self).wf(),
            old(self).free_list().len() > 0,
        ensures
            final(self).wf(),
            e.wf(),
            e.index == old(self).free_list().last(),
            e.generation == old(self).slot_generation(e.index as int),
            final(self).free_list() == old(self).free_list().drop_last(),
            final(self).slot_alive(e.index as int),
            forall|s: int|
                0 <= s < SLOT_LIMIT && s != e.index as int ==> #[trigger] final(self).slot_alive(
                    s,
                ) == old(self).slot_alive(s),
            forall|s: int|
                0 <= s < SLOT_LIMIT ==> #[trigger] final(self).slot_generation(s) == old(self).slot_generation(s),
            !old(self).entity_live(e),
            final(self).entity_live(e),
            forall|x: Entity|
                #![trigger old(self).entity_live(x)]
                old(self).entity_live(x) ==> final(self).entity_live(x) && x != e,
            final(self).transforms == old(self).transforms,
            final(self).colliders == old(self).colliders,
            final(self).sprites == old(self).sprites,
            final(self).hps == old(self).hps,
            final(self).enemies == old(self).enemies,
            final(self).bullets == old(self).bullets,
            forall|k: ComponentKind|
                #[trigger] final(self).registered(k) == old(self).registered(k),
    {
        let index: u16 = match self.free_indices.pop() {
            Some(index) => index,
            None => unreached(),
        };
        let record = self.records[index as usize];
        self.records[index as usize] = EntityRecord { is_alive: true, generation: record.generation };
        let e = Entity::new(index, record.generation);
        proof {
            let oldw = *old(self);
            let neww = *self;
            assert(!oldw.records@[index as int].is_alive) by {
                assert(oldw.free_indices@[oldw.free_indices@.len() - 1] == index);
            }
            assert forall|s: int|
                0 <= s < SLOT_LIMIT && !(neww.records@[s]).is_alive implies neww.free_contains(s) by {
                assert(s != index as int);
                assert(!oldw.records@[s].is_alive);
                let i = choose|i: int|
                    0 <= i < oldw.free_indices@.len() && (#[trigger] oldw.free_indices@[i]) as int
                        == s;
                assert(i < oldw.free_indices@.len() - 1) by {
                    if i == oldw.free_indices@.len() - 1 {
                        assert(oldw.free_indices@[i] == index);
                    }
                }
                assert(neww.free_indices@[i] as int == s);
            }
            assert(neww.wf());
            assert forall|x: Entity| oldw.entity_live(x) implies neww.entity_live(x) && x != e by {
                if x.index == index {
                    assert(oldw.slot_alive(index as int));
                }
            }
        }
        e
    }

    /// Returns `true` if the specified entity is currently alive.
    pub fn is_entity_alive(&self, entity: Entity) -> (r: bool)
        requires
            self.wf(),
            entity.wf(),
        ensures
            r == self.entity_live(entity),
    {
        let record = self.records[entity.index() as usize];
        record.is_alive && record.generation == entity.generation()
    }

    /// Destroys the listed entities and all of their components, in two
    /// phases: every identity must be currently alive (destroying a dead or
    /// unknown identity is a caller error, excluded here by precondition),
    /// then every registered pool drops whatever components the identities
    /// held, and
    /// finally each slot is marked dead, its generation advanced by one
    /// (wrapping below the sentinel), and returned to the front of the free
    /// queue.
    pub fn destroy_entities(&mut self, entities: &[Entity])
        requires
            old(self).wf(),
            old(self).pools_wf(),
            forall|i: int|
                0 <= i < entities@.len() ==> old(self).entity_live(#[trigger] entities@[i]),
            forall|i: int, j: int|
                0 <= i < j < entities@.len() ==> entities@[i].index != entities@[j].index,
        ensures
            final(self).wf(),
            final(self).pools_wf(),
            forall|k: ComponentKind|
                #[trigger] final(self).registered(k) == old(self).registered(k),
            forall|i: int|
                0 <= i < entities@.len() ==> !final(self).slot_alive(
                    (#[trigger] entities@[i]).index as int,
                ) && final(self).slot_generation(entities@[i].index as int) as int == (
                entities@[i].generation + 1) % (SLOT_LIMIT as int) && !final(self).entity_live(
                    entities@[i],
                ),
            forall|s: int|
                0 <= s < SLOT_LIMIT && !slot_among(entities@, s) ==> #[trigger] final(self).slot_alive(s) == old(self).slot_alive(s) && final(self).slot_generation(s)
                    == old(self).slot_generation(s),
            final(self).free_list().len() == entities@.len() + old(self).free_list().len(),
            forall|i: int|
                0 <= i < entities@.len() ==> (#[trigger] final(self).free_list()[i]) == entities@[
                    entities@.len() - 1 - i].index,
            forall|i: int|
                entities@.len() <= i < final(self).free_list().len() ==> (#[trigger] final(self).free_list()[i]) == old(self).free_list()[i - entities@.len()],
            old(self).registered(ComponentKind::Transform) ==> pool_purged(
                old(self).transforms,
                final(self).transforms,
                entities@,
            ),
            !old(self).registered(ComponentKind::Transform) ==> final(self).transforms == old(self).transforms,
            old(self).registered(ComponentKind::Collider) ==> pool_purged(
                old(self).colliders,
                final(self).colliders,
                entities@,
            ),
            !old(self).registered(ComponentKind::Collider) ==> final(self).colliders == old(self).colliders,
            old(self).registered(ComponentKind::Sprite) ==> pool_purged(
                old(self).sprites,
                final(self).sprites,
                entities@,
            ),
            !old(self).registered(ComponentKind::Sprite) ==> final(self).sprites == old(self).sprites,
            old(self).registered(ComponentKind::Hp) ==> pool_purged(
                old(self).hps,
                final(self).hps,
                entities@,
            ),
            !old(self).registered(ComponentKind::Hp) ==> final(self).hps == old(self).hps,
            old(self).registered(ComponentKind::Enemy) ==> pool_purged(
                old(self).enemies,
                final(self).enemies,
                entities@,
            ),
            !old(self).registered(ComponentKind::Enemy) ==> final(self).enemies == old(self).enemies,
            old(self).registered(ComponentKind::Bullet) ==> pool_purged(
                old(self).bullets,
                final(self).bullets,
                entities@,
            ),
            !old(self).registered(ComponentKind::Bullet) ==> final(self).bullets == old(self).bullets,
    {
        proof {
            assert forall|i: int| 0 <= i < entities@.len() implies (
            #[trigger] entities@[i]).wf() by {
                assert(old(self).entity_live(entities@[i]));
            }
        }
        if self.registered_transforms {
            purge_pool(&mut self.transforms, entities);
        }
        if self.registered_colliders {
            purge_pool(&mut self.colliders, entities);
        }
        if self.registered_sprites {
            purge_pool(&mut self.sprites, entities);
        }
        if self.registered_hps {
            purge_pool(&mut self.hps, entities);
        }
        if self.registered_enemies {
            purge_pool(&mut self.enemies, entities);
        }
        if self.registered_bullets {
            purge_pool(&mut self.bullets, entities);
        }
        let ghost mid = *self;
        let ghost orig_records = self.records@;
        let ghost orig_free = self.free_indices@;
        let n = entities.len();
        let mut j: usize = 0;
        while j < n
            invariant
                0 <= j <= n,
                n == entities@.len(),
                self.transforms == mid.transforms,
                self.colliders == mid.colliders,
                self.sprites == mid.sprites,
                self.hps == mid.hps,
                self.enemies == mid.enemies,
                self.bullets == mid.bullets,
                self.registered_transforms == mid.registered_transforms,
                self.registered_colliders == mid.registered_colliders,
                self.registered_sprites == mid.registered_sprites,
                self.registered_hps == mid.registered_hps,
                self.registered_enemies == mid.registered_enemies,
                self.registered_bullets == mid.registered_bullets,
                self.records@.len() == SLOT_LIMIT as int,
                orig_records.len() == SLOT_LIMIT as int,
                forall|i: int|
                    0 <= i < entities@.len() ==> (#[trigger] entities@[i]).wf()
                        && orig_records[entities@[i].index as int].is_alive && orig_records[
                        entities@[i].index as int].generation == entities@[i].generation,
                forall|i: int, k: int|
                    0 <= i < k < entities@.len() ==> entities@[i].index != entities@[k].index,
                forall|s: int|
                    0 <= s < SLOT_LIMIT ==> (#[trigger] self.records@[s]).generation < SLOT_LIMIT,
                forall|i: int|
                    0 <= i < j ==> !self.records@[(#[trigger] entities@[i]).index as int].is_alive
                        && self.records@[entities@[i].index as int].generation as int == (
                        entities@[i].generation + 1) % (SLOT_LIMIT as int),
                forall|s: int|
                    0 <= s < SLOT_LIMIT && !slot_among(entities@.take(j as int), s) ==> (
                    #[trigger] self.records@[s]) == orig_records[s],
                self.free_indices@.len() == j + orig_free.len(),
                forall|i: int|
                    0 <= i < j ==> (#[trigger] self.free_indices@[i]) == entities@[j - 1 - i].index,
                forall|i: int|
                    j <= i < self.free_indices@.len() ==> (#[trigger] self.free_indices@[i])
                        == orig_free[i - j],
                forall|i: int|
                    0 <= i < orig_free.len() ==> (#[trigger] orig_free[i]) < SLOT_LIMIT
                        && !orig_records[orig_free[i] as int].is_alive,
                forall|i: int, k: int|
                    0 <= i < k < orig_free.len() ==> orig_free[i] != orig_free[k],
                forall|s: int|
                    0 <= s < SLOT_LIMIT && !orig_records[s].is_alive ==> exists|i: int|
                        0 <= i < orig_free.len() && (#[trigger] orig_free[i]) as int == s,
            decreases n - j,
        {
            let e = entities[j];
            let idx = e.index() as usize;
            let record = self.records[idx];
            proof {
                assert(!slot_among(entities@.take(j as int), idx as int)) by {
                    if slot_among(entities@.take(j as int), idx as int) {
                        let i = choose|i: int|
                            0 <= i < j && (#[trigger] entities@.take(j as int)[i]).index as int
                                == idx as int;
                        assert(entities@[i].index == entities@[j as int].index);
                    }
                }
                assert(record == orig_records[idx as int]);
            }
            let generation = (record.generation + 1) % SLOT_LIMIT;
            self.records[idx] = EntityRecord { is_alive: false, generation };
            self.free_indices.insert(0, e.index());
            proof {
                assert forall|s: int|
                    0 <= s < SLOT_LIMIT && !slot_among(entities@.take(j + 1 as int), s) implies (
                #[trigger] self.records@[s]) == orig_records[s] by {
                    lemma_slot_among_take_step(entities@, j as int, s);
                }
                assert forall|i: int| 0 <= i < j + 1 implies (#[trigger] self.free_indices@[i])
                    == entities@[j + 1 - 1 - i].index by {
                    if i > 0 {
                        assert(self.free_indices@[i] == entities@[j - 1 - (i - 1)].index);
                    }
                }
            }
            j += 1;
        }
        proof {
            let neww = *self;
            assert(entities@.take(n as int) =~= entities@);
            assert forall|i: int|
                0 <= i < neww.free_indices@.len() implies (#[trigger] neww.free_indices@[i])
                < SLOT_LIMIT by {
                if i < n {
                    assert(entities@[n - 1 - i].wf());
                }
            }
            assert forall|i: int|
                0 <= i < neww.free_indices@.len() implies !neww.records@[(
            #[trigger] neww.free_indices@[i]) as int].is_alive by {
                if i < n {
                    let e = entities@[n - 1 - i];
                    assert(!neww.records@[e.index as int].is_alive);
                } else {
                    let s = orig_free[i - n] as int;
                    assert(!orig_records[s].is_alive);
                    assert(!slot_among(entities@, s)) by {
                        if slot_among(entities@, s) {
                            let k = choose|k: int|
                                0 <= k < entities@.len() && (#[trigger] entities@[k]).index as int
                                    == s;
                            assert(orig_records[s].is_alive);
                        }
                    }
                    assert(neww.records@[s] == orig_records[s]);
                }
            }
            assert forall|i: int, k: int|
                0 <= i < k < neww.free_indices@.len() implies (#[trigger] neww.free_indices@[i])
                != (#[trigger] neww.free_indices@[k]) by {
                if k < n {
                    assert(entities@[n - 1 - i].index != entities@[n - 1 - k].index);
                } else if i < n {
                    let e = entities@[n - 1 - i];
                    let s = orig_free[k - n] as int;
                    assert(!orig_records[s].is_alive);
                    assert(orig_records[e.index as int].is_alive);
                } else {
                    assert(orig_free[i - n] != orig_free[k - n]);
                }
            }
            assert forall|s: int|
                0 <= s < SLOT_LIMIT && !(#[trigger] neww.records@[s]).is_alive
                implies neww.free_contains(s) by {
                if slot_among(entities@, s) {
                    let k = choose|k: int|
                        0 <= k < entities@.len() && (#[trigger] entities@[k]).index as int == s;
                    assert(neww.free_indices@[n - 1 - k] as int == s);
                } else {
                    assert(neww.records@[s] == orig_records[s]);
                    let i = choose|i: int|
                        0 <= i < orig_free.len() && (#[trigger] orig_free[i]) as int == s;
                    assert(neww.free_indices@[i + n] as int == s);
                }
            }
            assert(neww.wf());
        }
    }
}

/// Every component in the pool is owned by a currently-live identity: the
/// slot is alive and the recorded owner carries its current generation.
pub open spec fn pool_owners_current<T>(w: World, p: ComponentPool<T>) -> bool {
    forall|s: int| #[trigger] p.contains_slot(s) ==> w.entity_live(p.owner_of_slot(s))
}

/// The slot table, free queue and registration flags determine the slot
/// bookkeeping: two worlds agreeing on those fields agree on well-formedness,
/// liveness, generations and registration, whatever their pools hold.
pub proof fn lemma_slot_state_from_fields(w1: World, w2: World)
    requires
        w2.records == w1.records,
        w2.free_indices == w1.free_indices,
        w2.registered_transforms == w1.registered_transforms,
        w2.registered_colliders == w1.registered_colliders,
        w2.registered_sprites == w1.registered_sprites,
        w2.registered_hps == w1.registered_hps,
        w2.registered_enemies == w1.registered_enemies,
        w2.registered_bullets == w1.registered_bullets,
    ensures
        w1.wf() ==> w2.wf(),
        forall|s: int|
            #![trigger w2.slot_alive(s)]
            #![trigger w1.slot_alive(s)]
            w2.slot_alive(s) == w1.slot_alive(s) && w2.slot_generation(s) == w1.slot_generation(
                s,
            ),
        w2.free_list() == w1.free_list(),
        forall|k: ComponentKind| #[trigger] w2.registered(k) == w1.registered(k),
        forall|e: Entity| #[trigger] w2.entity_live(e) == w1.entity_live(e),
{
}

/// After a cascade, no registered pool retains a component for any of the
/// destroyed identities, whether or not the identity held one there.
pub proof fn lemma_purge_drops_destroyed<T>(
    oldp: ComponentPool<T>,
    newp: ComponentPool<T>,
    destroyed: Seq<Entity>,
    j: int,
)
    requires
        pool_purged(oldp, newp, destroyed),
        0 <= j < destroyed.len(),
    ensures
        !newp.contains_slot(destroyed[j].index as int),
{
    assert(slot_among(destroyed, destroyed[j].index as int));
}

/// No two simultaneously-live identities share a slot index without being
/// the same identity: liveness pins the generation to the slot's current one,
/// so equal slot indices force equal generations.
pub proof fn lemma_live_identities_unique(w: World, e1: Entity, e2: Entity)
    requires
        w.entity_live(e1),
        w.entity_live(e2),
        e1.index == e2.index,
    ensures
        e1 == e2,
{
}

/// Destroying an identity advances its slot's generation (wrapping below the
/// sentinel), so an identity later created from the recycled slot carries a
/// strictly different generation and never compares equal to the destroyed
/// one.
pub proof fn lemma_reuse_advances_generation(destroyed: Entity, recreated: Entity)
    requires
        destroyed.wf(),
        recreated.index == destroyed.index,
        recreated.generation as int == (destroyed.generation + 1) % (SLOT_LIMIT as int),
    ensures
        recreated.generation != destroyed.generation,
        recreated != destroyed,
{
    if destroyed.generation == SLOT_LIMIT - 1 {
        assert(recreated.generation == 0);
    } else {
        assert(recreated.generation == destroyed.generation + 1);
    }
}

} // verus!
