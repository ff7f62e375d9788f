//! The component kinds stored by the registry: spatial transforms, collision
//! shapes, render metadata, health, and gameplay markers.
//!
//! World coordinates are plain integers so that every geometric rule in the
//! collision module is exact; callers pick the unit (for example a fixed
//! sub-pixel scale).

use vstd::prelude::*;

use crate::mask::CollisionMask;
use crate::pool::Component;

verus! {

/// A two-dimensional point or vector in integer world coordinates.
#[derive(Debug, Clone, Copy, PartialEq, Eq, Structural, Hash)]
pub struct Vec2i {
    pub x: i64,
    pub y: i64,
}

/// Determines the global position of an entity. The rotation is kept in
/// caller-defined angular units; no rule in this crate reads it.
#[derive(Debug, Clone, Copy, PartialEq, Eq, Structural, Hash)]
pub struct Transform {
    pub position: Vec2i,
    pub rotation: i64,
}

impl Component for Transform {

}

/// The geometric shape of a collider.
#[derive(Debug, Clone, Copy, PartialEq, Eq, Structural, Hash)]
pub enum Shape {
    Circle { radius: i64 },
}

impl Shape {
    /// The radius of the shape's bounding circle.
    pub open spec fn spec_radius(self) -> i64 {
        match self {
            Shape::Circle { radius } => radius,
        }
    }

    /// Returns the radius of the shape's bounding circle.
    pub fn radius(self) -> (r: i64)
        ensures
            r == self.spec_radius(),
    {
        match self {
            Shape::Circle { radius } => radius,
        }
    }
}

/// A collider component.
#[derive(Debug, Clone, Copy, PartialEq, Eq, Structural, Hash)]
pub struct Collider {
    /// Shape of the collider; its position comes from the entity's
    /// `Transform`.
    pub shape: Shape,
    /// The layers inside of which this collider can be detected.
    pub monitorable: CollisionMask,
    /// The layers that the collider will scan to detect collisions.
    pub monitoring: CollisionMask,
}

impl Component for Collider {

}

/// Render metadata for an entity. The texture itself is an external
/// resource owned by the caller and keyed by the entity.
#[derive(Debug, Clone, Copy, PartialEq, Eq, Structural, Hash)]
pub struct Sprite {
    pub is_visible: bool,
    pub layer: u8,
}

impl Component for Sprite {

}

/// Health points of an entity.
#[derive(Debug, Clone, Copy, PartialEq, Eq, Structural, Hash)]
pub struct Hp(pub u32);

impl Component for Hp {

}

/// Marker component for enemies.
#[derive(Debug, Clone, Copy, PartialEq, Eq, Structural, Hash)]
pub struct Enemy {
    pub _padding: bool,
}

impl Component for Enemy {

}

/// A projectile component carrying the damage it deals on impact.
#[derive(Debug, Clone, Copy, PartialEq, Eq, Structural, Hash)]
pub struct Bullet {
    pub damage: u32,
}

impl Component for Bullet {

}

} // verus!
