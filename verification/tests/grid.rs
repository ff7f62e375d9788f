use last_stand::components::{Collider, Shape, Transform, Vec2i};
use last_stand::entity::Entity;
use last_stand::grid::{CollisionGrid, CollisionGridParams, RectI};
use last_stand::mask::CollisionMask;
use last_stand::pool::ComponentPool;

fn at(x: i64, y: i64) -> Transform {
    Transform { position: Vec2i { x, y }, rotation: 0 }
}

fn circle(radius: i64, monitorable: u8, monitoring: u8) -> Collider {
    Collider {
        shape: Shape::Circle { radius },
        monitorable: CollisionMask(monitorable),
        monitoring: CollisionMask(monitoring),
    }
}

fn ten_by_ten() -> CollisionGridParams {
    CollisionGridParams {
        bounding_rect: RectI { x: 0, y: 0, w: 100, h: 100 },
        resolution: (10, 10),
    }
}

#[test]
fn two_circles_find_each_other() {
    let a = Entity::new(0, 0);
    let b = Entity::new(1, 0);
    let mut transforms: ComponentPool<Transform> = ComponentPool::new();
    let mut colliders: ComponentPool<Collider> = ComponentPool::new();
    transforms.insert(a, at(5, 5));
    colliders.insert(a, circle(3, 0b01, 0b10));
    transforms.insert(b, at(8, 8));
    colliders.insert(b, circle(3, 0b10, 0b01));
    let mut grid = CollisionGrid::new();
    grid.update(&transforms, &colliders, ten_by_ten());

    assert_eq!(grid.collisions(&transforms, &colliders, a), vec![b]);
    assert_eq!(grid.collisions(&transforms, &colliders, b), vec![a]);

    // Moving one circle far away and rebuilding empties both queries.
    transforms.get_mut(b).position = Vec2i { x: 50, y: 50 };
    grid.update(&transforms, &colliders, ten_by_ten());
    assert_eq!(grid.collisions(&transforms, &colliders, a), vec![]);
    assert_eq!(grid.collisions(&transforms, &colliders, b), vec![]);
}

#[test]
fn cells_hold_exactly_the_covering_entities() {
    let a = Entity::new(0, 0);
    let b = Entity::new(1, 0);
    let mut transforms: ComponentPool<Transform> = ComponentPool::new();
    let mut colliders: ComponentPool<Collider> = ComponentPool::new();
    transforms.insert(a, at(5, 5));
    colliders.insert(a, circle(3, 0b01, 0b10));
    transforms.insert(b, at(8, 8));
    colliders.insert(b, circle(3, 0b10, 0b01));
    let mut grid = CollisionGrid::new();
    grid.update(&transforms, &colliders, ten_by_ten());

    // A's bounding box spans [2,8]^2: only the cell (0,0). B's spans
    // [5,11]^2: the four cells (0,0), (1,0), (0,1), (1,1).
    assert_eq!(grid.cell(0, 0), vec![a, b]);
    assert_eq!(grid.cell(1, 0), vec![b]);
    assert_eq!(grid.cell(0, 1), vec![b]);
    assert_eq!(grid.cell(1, 1), vec![b]);
    for x in 0..10 {
        for y in 0..10 {
            if x > 1 || y > 1 {
                assert_eq!(grid.cell(x, y), vec![]);
            }
        }
    }
}

#[test]
fn out_of_bounds_collider_is_dropped_from_the_grid() {
    let far = Entity::new(0, 0);
    let mut transforms: ComponentPool<Transform> = ComponentPool::new();
    let mut colliders: ComponentPool<Collider> = ComponentPool::new();
    transforms.insert(far, at(200, 200));
    colliders.insert(far, circle(3, 0b11, 0b11));
    let mut grid = CollisionGrid::new();
    grid.update(&transforms, &colliders, ten_by_ten());
    for x in 0..10 {
        for y in 0..10 {
            assert_eq!(grid.cell(x, y), vec![]);
        }
    }
    assert_eq!(grid.collisions(&transforms, &colliders, far), vec![]);
}

#[test]
fn mask_filter_is_directional() {
    // Same geometry both ways, but only A scans a layer B is detectable in.
    let a = Entity::new(0, 0);
    let b = Entity::new(1, 0);
    let mut transforms: ComponentPool<Transform> = ComponentPool::new();
    let mut colliders: ComponentPool<Collider> = ComponentPool::new();
    transforms.insert(a, at(5, 5));
    colliders.insert(a, circle(3, 0b00, 0b10));
    transforms.insert(b, at(8, 8));
    colliders.insert(b, circle(3, 0b10, 0b01));
    let mut grid = CollisionGrid::new();
    grid.update(&transforms, &colliders, ten_by_ten());
    assert_eq!(grid.collisions(&transforms, &colliders, a), vec![b]);
    assert_eq!(grid.collisions(&transforms, &colliders, b), vec![]);
}

#[test]
fn touching_circles_do_not_overlap() {
    // Distance 10 equals the sum of radii: strictly-less-than means no hit.
    let a = Entity::new(0, 0);
    let b = Entity::new(1, 0);
    let mut transforms: ComponentPool<Transform> = ComponentPool::new();
    let mut colliders: ComponentPool<Collider> = ComponentPool::new();
    transforms.insert(a, at(10, 10));
    colliders.insert(a, circle(5, 0b10, 0b01));
    transforms.insert(b, at(20, 10));
    colliders.insert(b, circle(5, 0b01, 0b10));
    let mut grid = CollisionGrid::new();
    grid.update(&transforms, &colliders, ten_by_ten());
    assert_eq!(grid.collisions(&transforms, &colliders, a), vec![]);
    transforms.get_mut(b).position = Vec2i { x: 19, y: 10 };
    grid.update(&transforms, &colliders, ten_by_ten());
    // The two circles now overlap and share two cells; the query reports
    // the partner once per shared cell, without deduplication.
    assert_eq!(grid.collisions(&transforms, &colliders, a), vec![b, b]);
}

#[test]
fn any_collision_returns_first_hit() {
    let a = Entity::new(0, 0);
    let b = Entity::new(1, 0);
    let c = Entity::new(2, 0);
    let mut transforms: ComponentPool<Transform> = ComponentPool::new();
    let mut colliders: ComponentPool<Collider> = ComponentPool::new();
    transforms.insert(a, at(5, 5));
    colliders.insert(a, circle(3, 0b01, 0b10));
    transforms.insert(b, at(8, 8));
    colliders.insert(b, circle(3, 0b10, 0b01));
    transforms.insert(c, at(4, 4));
    colliders.insert(c, circle(3, 0b10, 0b00));
    let mut grid = CollisionGrid::new();
    grid.update(&transforms, &colliders, ten_by_ten());
    assert_eq!(grid.any_collision(&transforms, &colliders, a), Some(b));
    assert_eq!(grid.any_collision(&transforms, &colliders, c), None);
}

#[test]
fn update_replaces_previous_contents() {
    let a = Entity::new(0, 0);
    let mut transforms: ComponentPool<Transform> = ComponentPool::new();
    let mut colliders: ComponentPool<Collider> = ComponentPool::new();
    transforms.insert(a, at(5, 5));
    colliders.insert(a, circle(3, 0b1, 0b1));
    let mut grid = CollisionGrid::new();
    grid.update(&transforms, &colliders, ten_by_ten());
    assert_eq!(grid.cell(0, 0), vec![a]);
    transforms.get_mut(a).position = Vec2i { x: 95, y: 95 };
    grid.update(&transforms, &colliders, ten_by_ten());
    assert_eq!(grid.cell(0, 0), vec![]);
    assert_eq!(grid.cell(9, 9), vec![a]);
    assert_eq!(grid.params().resolution, (10, 10));
}
