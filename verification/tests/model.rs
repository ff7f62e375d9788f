use std::collections::HashMap;

use last_stand::components::{Collider, Shape, Transform, Vec2i};
use last_stand::entity::Entity;
use last_stand::grid::{CollisionGrid, CollisionGridParams, RectI};
use last_stand::mask::CollisionMask;
use last_stand::pool::ComponentPool;

struct Lcg(u64);

impl Lcg {
    fn next(&mut self) -> u64 {
        self.0 = self
            .0
            .wrapping_mul(6364136223846793005)
            .wrapping_add(1442695040888963407);
        self.0 >> 16
    }
    fn below(&mut self, n: u64) -> u64 {
        self.next() % n
    }
}

#[test]
fn pool_agrees_with_a_map_model() {
    let mut rng = Lcg(42);
    let mut pool: ComponentPool<u64> = ComponentPool::new();
    let mut model: HashMap<u16, u64> = HashMap::new();
    for step in 0..2000u64 {
        let slot = rng.below(50) as u16;
        let e = Entity::new(slot, 0);
        match rng.below(3) {
            0 => {
                if !model.contains_key(&slot) {
                    pool.insert(e, step);
                    model.insert(slot, step);
                }
            }
            1 => {
                let was_there = pool.try_remove(e);
                assert_eq!(was_there, model.remove(&slot).is_some());
            }
            _ => {
                assert_eq!(pool.get(e).copied(), model.get(&slot).copied());
                assert_eq!(pool.contains_entity(e), model.contains_key(&slot));
            }
        }
        assert_eq!(pool.len(), model.len());
    }
    // The dense arrays stay index-aligned with the sparse view throughout.
    for i in 0..pool.len() {
        let e = pool.entity_at(i);
        assert_eq!(pool.value_at(i), model.get(&e.index()).unwrap());
    }
}

const COLS: i64 = 10;
const ROWS: i64 = 10;
const W: i64 = 100;
const H: i64 = 100;

fn params() -> CollisionGridParams {
    CollisionGridParams {
        bounding_rect: RectI { x: 0, y: 0, w: W, h: H },
        resolution: (COLS as usize, ROWS as usize),
    }
}

fn axis_range(center: i64, radius: i64, extent: i64, res: i64) -> (i64, i64) {
    let a = center - radius;
    let lo = if a <= 0 { 0 } else { (a * res) / extent };
    let b = center + radius;
    let hi = if b < 0 {
        0
    } else {
        ((b * res + extent - 1) / extent).min(res)
    };
    (lo.min(hi), hi)
}

fn covers(t: &Transform, c: &Collider, x: i64, y: i64) -> bool {
    let r = match c.shape {
        Shape::Circle { radius } => radius,
    };
    let (lo_x, hi_x) = axis_range(t.position.x, r, W, COLS);
    let (lo_y, hi_y) = axis_range(t.position.y, r, H, ROWS);
    lo_x <= x && x < hi_x && lo_y <= y && y < hi_y
}

fn circles_hit(ta: &Transform, ra: i64, tb: &Transform, rb: i64) -> bool {
    let dx = ta.position.x - tb.position.x;
    let dy = ta.position.y - tb.position.y;
    let rr = ra + rb;
    dx * dx + dy * dy < rr * rr
}

#[test]
fn grid_agrees_with_brute_force() {
    let mut rng = Lcg(7);
    let mut transforms: ComponentPool<Transform> = ComponentPool::new();
    let mut colliders: ComponentPool<Collider> = ComponentPool::new();
    let mut all: Vec<Entity> = Vec::new();
    for i in 0..30u16 {
        let e = Entity::new(i, 0);
        let t = Transform {
            position: Vec2i {
                x: rng.below(140) as i64 - 20,
                y: rng.below(140) as i64 - 20,
            },
            rotation: 0,
        };
        let c = Collider {
            shape: Shape::Circle { radius: rng.below(15) as i64 },
            monitorable: CollisionMask(rng.below(4) as u8),
            monitoring: CollisionMask(rng.below(4) as u8),
        };
        transforms.insert(e, t);
        colliders.insert(e, c);
        all.push(e);
    }
    let mut grid = CollisionGrid::new();
    grid.update(&transforms, &colliders, params());

    // Every cell holds exactly the covering entities, in pool order.
    for y in 0..ROWS {
        for x in 0..COLS {
            let expected: Vec<Entity> = all
                .iter()
                .copied()
                .filter(|e| {
                    covers(
                        transforms.get(*e).unwrap(),
                        colliders.get(*e).unwrap(),
                        x,
                        y,
                    )
                })
                .collect();
            assert_eq!(grid.cell(x as usize, y as usize), expected);
        }
    }

    // Queries scan the issuer's covered cells row-major and filter by the
    // directional masks and exact circle overlap, without deduplication.
    for &issuer in &all {
        let it = transforms.get(issuer).unwrap().clone();
        let ic = colliders.get(issuer).unwrap().clone();
        let ir = match ic.shape {
            Shape::Circle { radius } => radius,
        };
        let (lo_x, hi_x) = axis_range(it.position.x, ir, W, COLS);
        let (lo_y, hi_y) = axis_range(it.position.y, ir, H, ROWS);
        let mut expected: Vec<Entity> = Vec::new();
        for y in lo_y..hi_y {
            for x in lo_x..hi_x {
                for cand in grid.cell(x as usize, y as usize) {
                    let cc = colliders.get(cand).unwrap();
                    let ct = transforms.get(cand).unwrap();
                    let cr = match cc.shape {
                        Shape::Circle { radius } => radius,
                    };
                    if ic.monitoring.overlaps(cc.monitorable) && circles_hit(&it, ir, ct, cr) {
                        expected.push(cand);
                    }
                }
            }
        }
        assert_eq!(grid.collisions(&transforms, &colliders, issuer), expected);
        assert_eq!(
            grid.any_collision(&transforms, &colliders, issuer),
            expected.first().copied()
        );
    }
}
