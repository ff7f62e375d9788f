use last_stand::components::{Hp, Shape, Transform, Vec2i};
use last_stand::gameplay::{
    damage_entity, dead_enemies, find_enemy_collision, is_player_dead, spawn_batch_len,
    spawn_bullet, spawn_enemy,
};
use last_stand::grid::{CollisionGrid, CollisionGridParams, RectI};
use last_stand::world::{ComponentKind, World};

fn game_world() -> World {
    let mut world = World::new();
    world.register_type(ComponentKind::Transform);
    world.register_type(ComponentKind::Collider);
    world.register_type(ComponentKind::Sprite);
    world.register_type(ComponentKind::Hp);
    world.register_type(ComponentKind::Enemy);
    world.register_type(ComponentKind::Bullet);
    world
}

fn arena() -> CollisionGridParams {
    CollisionGridParams {
        bounding_rect: RectI { x: 0, y: 0, w: 100, h: 100 },
        resolution: (10, 10),
    }
}

#[test]
fn spawned_enemy_carries_its_bundle() {
    let mut world = game_world();
    let e = spawn_enemy(&mut world, Vec2i { x: 30, y: 40 }, 3);
    assert!(world.is_entity_alive(e));
    assert!(world.enemies.contains_entity(e));
    assert_eq!(
        world.transforms.get(e),
        Some(&Transform { position: Vec2i { x: 30, y: 40 }, rotation: 0 })
    );
    let collider = world.colliders.get(e).unwrap();
    assert_eq!(collider.shape, Shape::Circle { radius: 20 });
    assert_eq!(collider.monitorable.0, 0b10);
    assert_eq!(collider.monitoring.0, 0b01);
    assert_eq!(world.hps.get(e), Some(&Hp(10)));
    let sprite = world.sprites.get(e).unwrap();
    assert!(sprite.is_visible);
    assert_eq!(sprite.layer, 1);
    assert!(!world.bullets.contains_entity(e));
}

#[test]
fn spawned_bullet_carries_its_bundle() {
    let mut world = game_world();
    let e = spawn_bullet(&mut world, Vec2i { x: 1, y: 2 }, 77, 9);
    assert!(world.is_entity_alive(e));
    assert_eq!(world.bullets.get(e).unwrap().damage, 9);
    let t = world.transforms.get(e).unwrap();
    assert_eq!(t.position, Vec2i { x: 1, y: 2 });
    assert_eq!(t.rotation, 77);
    let collider = world.colliders.get(e).unwrap();
    assert_eq!(collider.shape, Shape::Circle { radius: 15 });
    assert_eq!(collider.monitorable.0, 0);
    assert_eq!(collider.monitoring.0, 0b10);
    assert_eq!(world.sprites.get(e).unwrap().layer, 4);
    assert!(!world.enemies.contains_entity(e));
}

#[test]
fn damage_saturates_at_zero() {
    let mut world = game_world();
    let e = spawn_enemy(&mut world, Vec2i { x: 10, y: 10 }, 0);
    assert_eq!(world.hps.get(e), Some(&Hp(4)));
    damage_entity(&mut world.hps, e, 3);
    assert_eq!(world.hps.get(e), Some(&Hp(1)));
    damage_entity(&mut world.hps, e, 100);
    assert_eq!(world.hps.get(e), Some(&Hp(0)));
}

#[test]
fn dead_enemies_lists_depleted_ones_in_pool_order() {
    let mut world = game_world();
    let a = spawn_enemy(&mut world, Vec2i { x: 10, y: 10 }, 0);
    let b = spawn_enemy(&mut world, Vec2i { x: 20, y: 10 }, 0);
    let c = spawn_enemy(&mut world, Vec2i { x: 30, y: 10 }, 0);
    damage_entity(&mut world.hps, a, 100);
    damage_entity(&mut world.hps, c, 100);
    assert_eq!(dead_enemies(&world), vec![a, c]);
    world.destroy_entities(&[a, c]);
    assert_eq!(dead_enemies(&world), vec![]);
    assert!(world.is_entity_alive(b));
}

#[test]
fn player_death_reads_health() {
    let mut world = game_world();
    let player = world.create_entity();
    world.hps.insert(player, Hp(2));
    assert!(!is_player_dead(&world.hps, player));
    damage_entity(&mut world.hps, player, 2);
    assert!(is_player_dead(&world.hps, player));
}

#[test]
fn batch_length_scales_with_level() {
    assert_eq!(spawn_batch_len(0), 3);
    assert_eq!(spawn_batch_len(5), 13);
}

#[test]
fn bullet_finds_enemy_through_the_grid() {
    let mut world = game_world();
    let enemy = spawn_enemy(&mut world, Vec2i { x: 50, y: 50 }, 0);
    let bullet = spawn_bullet(&mut world, Vec2i { x: 45, y: 50 }, 0, 1);
    let mut grid = CollisionGrid::new();
    grid.update(&world.transforms, &world.colliders, arena());
    let hit = find_enemy_collision(
        &grid,
        &world.transforms,
        &world.colliders,
        &world.enemies,
        bullet,
    );
    assert_eq!(hit, Some(enemy));
    // The enemy scans the player layer, not the bullet layer, so the
    // query in the other direction finds nothing.
    let reverse = find_enemy_collision(
        &grid,
        &world.transforms,
        &world.colliders,
        &world.enemies,
        enemy,
    );
    assert_eq!(reverse, None);
}
