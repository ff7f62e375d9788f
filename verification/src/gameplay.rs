//! Gameplay rules on top of the registry and the grid: spawning entities
//! with their component bundles, health bookkeeping, and collision-driven
//! decisions. Timing, randomness and rendering stay with the caller; these
//! functions take and return plain values.

use vstd::prelude::*;

use crate::components::{Bullet, Collider, Enemy, Hp, Shape, Sprite, Transform, Vec2i};
use crate::entity::Entity;
use crate::grid::{first_hit_in, query_result, CollisionGrid};
use crate::mask::CollisionMask;
use crate::pool::ComponentPool;
use crate::world::{lemma_slot_state_from_fields, pool_owners_current, ComponentKind, World};

verus! {

/// How many enemies one spawn wave contains at the given player level.
pub fn spawn_batch_len(level: u32) -> (r: u32)
    requires
        3 + 2 * level <= u32::MAX,
    ensures
        r == 3 + 2 * level,
{
    3 + 2 * level
}

/// Spawns one enemy at the given position: a fresh entity with an enemy
/// marker, a transform, a detectable contact collider, a sprite record and
/// level-scaled health. The caller binds textures and screen placement to
/// the returned identity.
pub fn spawn_enemy(world: &mut World, pos: Vec2i, level: u32) -> (e: Entity)
    requires
        old(world).wf(),
        old(world).pools_wf(),
        old(world).free_list().len() > 0,
        old(world).registered(ComponentKind::Enemy),
        old(world).registered(ComponentKind::Transform),
        old(world).registered(ComponentKind::Collider),
        old(world).registered(ComponentKind::Sprite),
        old(world).registered(ComponentKind::Hp),
        pool_owners_current(*old(world), old(world).enemies),
        pool_owners_current(*old(world), old(world).transforms),
        pool_owners_current(*old(world), old(world).colliders),
        pool_owners_current(*old(world), old(world).sprites),
        pool_owners_current(*old(world), old(world).hps),
        4 + 2 * level <= u32::MAX,
    ensures
        final(world).wf(),
        final(world).pools_wf(),
        e.wf(),
        !old(world).entity_live(e),
        final(world).entity_live(e),
        forall|x: Entity|
            #![trigger old(world).entity_live(x)]
            old(world).entity_live(x) ==> final(world).entity_live(x) && x != e,
        final(world).enemies.owners() == old(world).enemies.owners().push(e),
        final(world).enemies.vals() == old(world).enemies.vals().push(
            Enemy { _padding: true },
        ),
        final(world).transforms.owners() == old(world).transforms.owners().push(e),
        final(world).transforms.vals() == old(world).transforms.vals().push(
            Transform { position: pos, rotation: 0 },
        ),
        final(world).colliders.owners() == old(world).colliders.owners().push(e),
        final(world).colliders.vals() == old(world).colliders.vals().push(
            Collider {
                shape: Shape::Circle { radius: 20 },
                monitorable: CollisionMask(2),
                monitoring: CollisionMask(1),
            },
        ),
        final(world).sprites.owners() == old(world).sprites.owners().push(e),
        final(world).sprites.vals() == old(world).sprites.vals().push(
            Sprite { is_visible: true, layer: 1 },
        ),
        final(world).hps.owners() == old(world).hps.owners().push(e),
        final(world).hps.vals() == old(world).hps.vals().push(Hp((4 + 2 * level) as u32)),
        final(world).bullets == old(world).bullets,
        forall|k: ComponentKind| #[trigger] final(world).registered(k) == old(world).registered(k),
        pool_owners_current(*final(world), final(world).enemies),
        pool_owners_current(*final(world), final(world).transforms),
        pool_owners_current(*final(world), final(world).colliders),
        pool_owners_current(*final(world), final(world).sprites),
        pool_owners_current(*final(world), final(world).hps),
{
    let e = world.create_entity();
    let ghost mid = *world;
    proof {
        assert(!old(world).slot_alive(e.index as int));
        assert(!mid.enemies.contains_slot(e.index as int)) by {
            if mid.enemies.contains_slot(e.index as int) {
                assert(old(world).entity_live(
                    old(world).enemies.owner_of_slot(e.index as int),
                ));
            }
        }
        assert(!mid.transforms.contains_slot(e.index as int)) by {
            if mid.transforms.contains_slot(e.index as int) {
                assert(old(world).entity_live(
                    old(world).transforms.owner_of_slot(e.index as int),
                ));
            }
        }
        assert(!mid.colliders.contains_slot(e.index as int)) by {
            if mid.colliders.contains_slot(e.index as int) {
                assert(old(world).entity_live(
                    old(world).colliders.owner_of_slot(e.index as int),
                ));
            }
        }
        assert(!mid.sprites.contains_slot(e.index as int)) by {
            if mid.sprites.contains_slot(e.index as int) {
                assert(old(world).entity_live(
                    old(world).sprites.owner_of_slot(e.index as int),
                ));
            }
        }
        assert(!mid.hps.contains_slot(e.index as int)) by {
            if mid.hps.contains_slot(e.index as int) {
                assert(old(world).entity_live(old(world).hps.owner_of_slot(e.index as int)));
            }
        }
    }
    world.enemies.insert(e, Enemy { _padding: true });
    world.transforms.insert(e, Transform { position: pos, rotation: 0 });
    world.colliders.insert(
        e,
        Collider {
            shape: Shape::Circle { radius: 20 },
            monitorable: CollisionMask(2),
            monitoring: CollisionMask(1),
        },
    );
    world.sprites.insert(e, Sprite { is_visible: true, layer: 1 });
    world.hps.insert(e, Hp(4 + 2 * level));
    proof {
        lemma_slot_state_from_fields(mid, *world);
        assert forall|s: int| #[trigger] world.enemies.contains_slot(s) implies world.entity_live(
            world.enemies.owner_of_slot(s),
        ) by {
            if s != e.index as int {
                assert(mid.enemies.contains_slot(s));
                assert(old(world).entity_live(old(world).enemies.owner_of_slot(s)));
            }
        }
        assert forall|s: int|
            #[trigger] world.transforms.contains_slot(s) implies world.entity_live(
            world.transforms.owner_of_slot(s),
        ) by {
            if s != e.index as int {
                assert(mid.transforms.contains_slot(s));
                assert(old(world).entity_live(old(world).transforms.owner_of_slot(s)));
            }
        }
        assert forall|s: int|
            #[trigger] world.colliders.contains_slot(s) implies world.entity_live(
            world.colliders.owner_of_slot(s),
        ) by {
            if s != e.index as int {
                assert(mid.colliders.contains_slot(s));
                assert(old(world).entity_live(old(world).colliders.owner_of_slot(s)));
            }
        }
        assert forall|s: int| #[trigger] world.sprites.contains_slot(s) implies world.entity_live(
            world.sprites.owner_of_slot(s),
        ) by {
            if s != e.index as int {
                assert(mid.sprites.contains_slot(s));
                assert(old(world).entity_live(old(world).sprites.owner_of_slot(s)));
            }
        }
        assert forall|s: int| #[trigger] world.hps.contains_slot(s) implies world.entity_live(
            world.hps.owner_of_slot(s),
        ) by {
            if s != e.index as int {
                assert(mid.hps.contains_slot(s));
                assert(old(world).entity_live(old(world).hps.owner_of_slot(s)));
            }
        }
    }
    e
}

/// Spawns one bullet at the given position and heading, scanning the enemy
/// layer without being detectable itself. The caller binds a texture and
/// screen placement to the returned identity.
pub fn spawn_bullet(world: &mut World, pos: Vec2i, rotation: i64, damage: u32) -> (e: Entity)
    requires
        old(world).wf(),
        old(world).pools_wf(),
        old(world).free_list().len() > 0,
        old(world).registered(ComponentKind::Bullet),
        old(world).registered(ComponentKind::Transform),
        old(world).registered(ComponentKind::Collider),
        old(world).registered(ComponentKind::Sprite),
        pool_owners_current(*old(world), old(world).bullets),
        pool_owners_current(*old(world), old(world).transforms),
        pool_owners_current(*old(world), old(world).colliders),
        pool_owners_current(*old(world), old(world).sprites),
    ensures
        final(world).wf(),
        final(world).pools_wf(),
        e.wf(),
        !old(world).entity_live(e),
        final(world).entity_live(e),
        forall|x: Entity|
            #![trigger old(world).entity_live(x)]
            old(world).entity_live(x) ==> final(world).entity_live(x) && x != e,
        final(world).bullets.owners() == old(world).bullets.owners().push(e),
        final(world).bullets.vals() == old(world).bullets.vals().push(Bullet { damage }),
        final(world).transforms.owners() == old(world).transforms.owners().push(e),
        final(world).transforms.vals() == old(world).transforms.vals().push(
            Transform { position: pos, rotation },
        ),
        final(world).colliders.owners() == old(world).colliders.owners().push(e),
        final(world).colliders.vals() == old(world).colliders.vals().push(
            Collider {
                shape: Shape::Circle { radius: 15 },
                monitorable: CollisionMask(0),
                monitoring: CollisionMask(2),
            },
        ),
        final(world).sprites.owners() == old(world).sprites.owners().push(e),
        final(world).sprites.vals() == old(world).sprites.vals().push(
            Sprite { is_visible: true, layer: 4 },
        ),
        final(world).enemies == old(world).enemies,
        final(world).hps == old(world).hps,
        forall|k: ComponentKind| #[trigger] final(world).registered(k) == old(world).registered(k),
        pool_owners_current(*final(world), final(world).bullets),
        pool_owners_current(*final(world), final(world).transforms),
        pool_owners_current(*final(world), final(world).colliders),
        pool_owners_current(*final(world), final(world).sprites),
{
    let e = world.create_entity();
    let ghost mid = *world;
    proof {
        assert(!old(world).slot_alive(e.index as int));
        assert(!mid.bullets.contains_slot(e.index as int)) by {
            if mid.bullets.contains_slot(e.index as int) {
                assert(old(world).entity_live(
                    old(world).bullets.owner_of_slot(e.index as int),
                ));
            }
        }
        assert(!mid.transforms.contains_slot(e.index as int)) by {
            if mid.transforms.contains_slot(e.index as int) {
                assert(old(world).entity_live(
                    old(world).transforms.owner_of_slot(e.index as int),
                ));
            }
        }
        assert(!mid.colliders.contains_slot(e.index as int)) by {
            if mid.colliders.contains_slot(e.index as int) {
                assert(old(world).entity_live(
                    old(world).colliders.owner_of_slot(e.index as int),
                ));
            }
        }
        assert(!mid.sprites.contains_slot(e.index as int)) by {
            if mid.sprites.contains_slot(e.index as int) {
                assert(old(world).entity_live(
                    old(world).sprites.owner_of_slot(e.index as int),
                ));
            }
        }
    }
    world.bullets.insert(e, Bullet { damage });
    world.transforms.insert(e, Transform { position: pos, rotation });
    world.colliders.insert(
        e,
        Collider {
            shape: Shape::Circle { radius: 15 },
            monitorable: CollisionMask(0),
            monitoring: CollisionMask(2),
        },
    );
    world.sprites.insert(e, Sprite { is_visible: true, layer: 4 });
    proof {
        lemma_slot_state_from_fields(mid, *world);
        assert forall|s: int| #[trigger] world.bullets.contains_slot(s) implies world.entity_live(
            world.bullets.owner_of_slot(s),
        ) by {
            if s != e.index as int {
                assert(mid.bullets.contains_slot(s));
                assert(old(world).entity_live(old(world).bullets.owner_of_slot(s)));
            }
        }
        assert forall|s: int|
            #[trigger] world.transforms.contains_slot(s) implies world.entity_live(
            world.transforms.owner_of_slot(s),
        ) by {
            if s != e.index as int {
                assert(mid.transforms.contains_slot(s));
                assert(old(world).entity_live(old(world).transforms.owner_of_slot(s)));
            }
        }
        assert forall|s: int|
            #[trigger] world.colliders.contains_slot(s) implies world.entity_live(
            world.colliders.owner_of_slot(s),
        ) by {
            if s != e.index as int {
                assert(mid.colliders.contains_slot(s));
                assert(old(world).entity_live(old(world).colliders.owner_of_slot(s)));
            }
        }
        assert forall|s: int| #[trigger] world.sprites.contains_slot(s) implies world.entity_live(
            world.sprites.owner_of_slot(s),
        ) by {
            if s != e.index as int {
                assert(mid.sprites.contains_slot(s));
                assert(old(world).entity_live(old(world).sprites.owner_of_slot(s)));
            }
        }
    }
    e
}

/// An entity's health is depleted.
pub open spec fn hp_depleted(hps: ComponentPool<Hp>) -> spec_fn(Entity) -> bool {
    |e: Entity| hps.value_of_slot(e.index as int).0 == 0
}

/// Returns the enemies whose health is depleted, in pool order. Every enemy
/// must carry health; one without it is a caller error, excluded here by
/// precondition.
#[verifier::loop_isolation(false)]
pub fn dead_enemies(world: &World) -> (r: Vec<Entity>)
    requires
        world.enemies.wf(),
        world.hps.wf(),
        forall|i: int|
            0 <= i < world.enemies.owners().len() ==> world.hps.contains_slot(
                (#[trigger] world.enemies.owners()[i]).index as int,
            ),
    ensures
        r@ == world.enemies.owners().filter(hp_depleted(world.hps)),
        forall|j: int|
            0 <= j < r@.len() ==> (#[trigger] r@[j]).wf() && world.enemies.contains_slot(
                r@[j].index as int,
            ) && world.enemies.owner_of_slot(r@[j].index as int) == r@[j],
{
    proof {
        world.enemies.lemma_owners_wf();
    }
    let ghost pred = hp_depleted(world.hps);
    let owners = world.enemies.entities();
    let n = owners.len();
    let mut out: Vec<Entity> = Vec::new();
    let mut k: usize = 0;
    while k < n
        invariant
            0 <= k <= n,
            n == world.enemies.owners().len(),
            owners@ == world.enemies.owners(),
            world.enemies.wf(),
            world.hps.wf(),
            forall|i: int|
                0 <= i < world.enemies.owners().len() ==> world.hps.contains_slot(
                    (#[trigger] world.enemies.owners()[i]).index as int,
                ),
            pred == hp_depleted(world.hps),
            out@ == world.enemies.owners().take(k as int).filter(pred),
            forall|j: int|
                0 <= j < out@.len() ==> (#[trigger] out@[j]).wf() && world.enemies.contains_slot(
                    out@[j].index as int,
                ) && world.enemies.owner_of_slot(out@[j].index as int) == out@[j],
        decreases n - k,
    {
        let e = owners[k];
        let depleted = match world.hps.get(e) {
            Some(hp) => hp.0 == 0,
            None => unreached(),
        };
        if depleted {
            out.push(e);
            proof {
                world.enemies.lemma_index_of_owner(k as int);
            }
        }
        proof {
            reveal(Seq::filter);
            let owners_seq = world.enemies.owners();
            assert(owners_seq.take(k + 1).drop_last() =~= owners_seq.take(k as int));
            assert(owners_seq.take(k + 1).last() == e);
            if pred(e) {
                assert(out@ =~= owners_seq.take(k + 1).filter(pred));
            } else {
                assert(out@ =~= owners_seq.take(k + 1).filter(pred));
            }
        }
        k += 1;
    }
    proof {
        assert(world.enemies.owners().take(n as int) =~= world.enemies.owners());
    }
    out
}

/// Deals the given damage to the entity's health, saturating at zero; the
/// entity must carry health, so the lookup can never miss.
pub fn damage_entity(hps: &mut ComponentPool<Hp>, target: Entity, amount: u32)
    requires
        old(hps).wf(),
        target.wf(),
        old(hps).contains_slot(target.index as int),
    ensures
        final(hps).wf(),
        final(hps).owners() == old(hps).owners(),
        final(hps).vals() == old(hps).vals().update(
            old(hps).index_of_slot(target.index as int),
            Hp(
                if old(hps).value_of_slot(target.index as int).0 >= amount {
                    (old(hps).value_of_slot(target.index as int).0 - amount) as u32
                } else {
                    0
                },
            ),
        ),
{
    let hp = hps.get_mut(target);
    if hp.0 >= amount {
        hp.0 = hp.0 - amount;
    } else {
        hp.0 = 0;
    }
}

/// Returns `true` if the player's health is depleted; the player must
/// carry health, so the lookup can never miss.
pub fn is_player_dead(hps: &ComponentPool<Hp>, player: Entity) -> (r: bool)
    requires
        hps.wf(),
        player.wf(),
        hps.contains_slot(player.index as int),
    ensures
        r == (hps.value_of_slot(player.index as int).0 == 0),
{
    match hps.get(player) {
        Some(hp) => hp.0 == 0,
        None => unreached(),
    }
}

/// Returns the first collision partner of `entity` that is an enemy, if any;
/// preconditions as for the grid query.
#[verifier::loop_isolation(false)]
pub fn find_enemy_collision(
    grid: &CollisionGrid,
    transforms: &ComponentPool<Transform>,
    colliders: &ComponentPool<Collider>,
    enemies: &ComponentPool<Enemy>,
    entity: Entity,
) -> (r: Option<Entity>)
    requires
        grid.spec_params().wf(),
        transforms.wf(),
        colliders.wf(),
        enemies.wf(),
        entity.wf(),
        colliders.contains_slot(entity.index as int),
        transforms.contains_slot(entity.index as int),
        crate::grid::vec2_ok(transforms.value_of_slot(entity.index as int).position),
        crate::grid::coord_ok(colliders.value_of_slot(entity.index as int).shape.spec_radius()),
        forall|k: int|
            0 <= k < grid.entities_seq().len() ==> {
                let e = #[trigger] grid.entities_seq()[k];
                &&& e.wf()
                &&& colliders.contains_slot(e.index as int)
                &&& transforms.contains_slot(e.index as int)
                &&& crate::grid::vec2_ok(transforms.value_of_slot(e.index as int).position)
                &&& crate::grid::coord_ok(
                    colliders.value_of_slot(e.index as int).shape.spec_radius(),
                )
            },
    ensures
        r == first_hit_in(query_result(*grid, *transforms, *colliders, entity), *enemies),
{
    let found = grid.collisions(transforms, colliders, entity);
    let n = found.len();
    proof {
        assert(found@.skip(0) =~= found@);
    }
    let mut k: usize = 0;
    while k < n
        invariant
            0 <= k <= n,
            n == found@.len(),
            enemies.wf(),
            forall|j: int|
                0 <= j < found@.len() ==> (#[trigger] found@[j]).wf(),
            first_hit_in(found@, *enemies) == first_hit_in(found@.skip(k as int), *enemies),
        decreases n - k,
    {
        let cand = found[k];
        proof {
            assert(found@.skip(k as int)[0] == cand);
            assert(found@.skip(k as int).drop_first() =~= found@.skip(k + 1));
        }
        if enemies.contains_entity(cand) {
            return Some(cand);
        }
        k += 1;
    }
    proof {
        assert(found@.skip(n as int) =~= Seq::<Entity>::empty());
    }
    None
}

} // verus!
