//! A verified core for a particle-life simulation: a quadtree spatial
//! partition over a rectangular arena, and a per-tick engine that evaluates
//! type-dependent pair forces, integrates velocities and positions, and
//! reflects particles off the arena walls.
//!
//! All quantities are fixed-point integers: a coordinate, velocity or force
//! of `x` stands for the real value `x / SCALE`.

pub mod engine;
pub mod fixed;
pub mod force;
pub mod geometry;
pub mod particle;
pub mod partition;
