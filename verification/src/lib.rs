//! Data layer of a small real-time simulation: an entity/component registry
//! with packed per-type component pools, generational entity identities, and
//! a uniform spatial grid answering broad-phase collision queries.

pub mod attributes;
pub mod components;
pub mod entity;
pub mod exp;
pub mod gameplay;
pub mod grid;
pub mod mask;
pub mod pool;
pub mod world;
