use last_stand::components::{Enemy, Hp, Transform, Vec2i};
use last_stand::entity::Entity;
use last_stand::pool::ComponentPool;
use last_stand::world::{ComponentKind, World};

fn entity(index: u16, generation: u16) -> Entity {
    Entity::new(index, generation)
}

#[test]
fn entity_fields_round_trip() {
    let e = entity(7, 3);
    assert_eq!(e.index(), 7);
    assert_eq!(e.generation(), 3);
    assert_eq!(e, entity(7, 3));
    assert_ne!(e, entity(7, 4));
    assert_ne!(e, entity(8, 3));
}

#[test]
fn pool_insert_then_get_returns_value() {
    let mut pool: ComponentPool<Hp> = ComponentPool::new();
    let e = entity(5, 0);
    pool.insert(e, Hp(42));
    assert_eq!(pool.get(e), Some(&Hp(42)));
    assert!(pool.contains_entity(e));
}

#[test]
fn pool_insert_remove_then_get_returns_none() {
    let mut pool: ComponentPool<Hp> = ComponentPool::new();
    let e = entity(5, 0);
    pool.insert(e, Hp(42));
    pool.remove(e);
    assert_eq!(pool.get(e), None);
    assert!(!pool.contains_entity(e));
}

#[test]
fn pool_len_counts_inserts_minus_removes() {
    let mut pool: ComponentPool<Hp> = ComponentPool::new();
    let a = entity(0, 0);
    let b = entity(1, 0);
    let c = entity(2, 0);
    pool.insert(a, Hp(1));
    pool.insert(b, Hp(2));
    pool.insert(c, Hp(3));
    assert_eq!(pool.len(), 3);
    assert!(pool.try_remove(a));
    assert!(pool.try_remove(c));
    assert_eq!(pool.len(), 1);
    assert_eq!(pool.get(b), Some(&Hp(2)));
}

#[test]
fn pool_try_remove_reports_absence() {
    let mut pool: ComponentPool<Hp> = ComponentPool::new();
    let e = entity(9, 0);
    assert!(!pool.try_remove(e));
    pool.insert(e, Hp(1));
    assert!(pool.try_remove(e));
    assert!(!pool.try_remove(e));
}

#[test]
fn pool_removal_swaps_with_last() {
    let mut pool: ComponentPool<Hp> = ComponentPool::new();
    let a = entity(0, 0);
    let b = entity(1, 0);
    let c = entity(2, 0);
    pool.insert(a, Hp(10));
    pool.insert(b, Hp(20));
    pool.insert(c, Hp(30));
    pool.remove(a);
    assert_eq!(pool.entities().as_slice(), &[c, b]);
    assert_eq!(pool.values().as_slice(), &[Hp(30), Hp(20)]);
}

#[test]
fn pool_get_mut_updates_value() {
    let mut pool: ComponentPool<Hp> = ComponentPool::new();
    let e = entity(3, 0);
    pool.insert(e, Hp(10));
    pool.get_mut(e).0 = 99;
    assert_eq!(pool.get(e), Some(&Hp(99)));
}

#[test]
fn pool_capacity_operations_keep_contents() {
    let mut pool: ComponentPool<Hp> = ComponentPool::new();
    let e = entity(3, 0);
    pool.insert(e, Hp(10));
    pool.reserve(100);
    pool.shrink_to(1);
    pool.shrink_to_fit();
    assert_eq!(pool.len(), 1);
    assert_eq!(pool.get(e), Some(&Hp(10)));
}

#[test]
fn created_entities_are_alive_and_distinct() {
    let mut world = World::new();
    let a = world.create_entity();
    let b = world.create_entity();
    let c = world.create_entity();
    assert!(world.is_entity_alive(a));
    assert!(world.is_entity_alive(b));
    assert!(world.is_entity_alive(c));
    assert_ne!(a, b);
    assert_ne!(a, c);
    assert_ne!(b, c);
}

#[test]
fn destroyed_entity_is_not_alive() {
    let mut world = World::new();
    let e = world.create_entity();
    assert!(world.is_entity_alive(e));
    world.destroy_entities(&[e]);
    assert!(!world.is_entity_alive(e));
}

#[test]
fn recycled_slot_gets_new_generation() {
    let mut world = World::new();
    let first = world.create_entity();
    world.destroy_entities(&[first]);
    // The freed slot goes to the front of the queue and allocation takes
    // from the back, so every other slot is handed out before it returns.
    let mut reused = world.create_entity();
    for _ in 0..65534 {
        reused = world.create_entity();
    }
    assert_eq!(reused.index(), first.index());
    assert_ne!(reused.generation(), first.generation());
    assert!(!world.is_entity_alive(first));
    assert!(world.is_entity_alive(reused));
}

#[test]
fn destroy_cascades_across_registered_pools() {
    let mut world = World::new();
    world.register_type(ComponentKind::Hp);
    world.register_type(ComponentKind::Enemy);
    world.register_type(ComponentKind::Transform);
    let e = world.create_entity();
    world.hps.insert(e, Hp(5));
    world.enemies.insert(e, Enemy { _padding: true });
    // No transform on purpose: the cascade tolerates absence per pool.
    world.destroy_entities(&[e]);
    assert!(!world.hps.contains_entity(e));
    assert!(!world.enemies.contains_entity(e));
    assert!(!world.transforms.contains_entity(e));
}

#[test]
fn destroy_leaves_other_entities_untouched() {
    let mut world = World::new();
    world.register_type(ComponentKind::Hp);
    let keep = world.create_entity();
    let gone = world.create_entity();
    world.hps.insert(keep, Hp(7));
    world.hps.insert(gone, Hp(8));
    world.destroy_entities(&[gone]);
    assert!(world.is_entity_alive(keep));
    assert_eq!(world.hps.get(keep), Some(&Hp(7)));
    assert!(!world.hps.contains_entity(gone));
}

#[test]
fn register_type_is_idempotent() {
    let mut world = World::new();
    world.register_type(ComponentKind::Transform);
    let e = world.create_entity();
    world.transforms.insert(
        e,
        Transform { position: Vec2i { x: 1, y: 2 }, rotation: 0 },
    );
    world.register_type(ComponentKind::Transform);
    assert!(world.transforms.contains_entity(e));
}
