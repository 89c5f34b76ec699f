//! Simulation core of a small 2D arcade shooter: movement, bounds, spawning,
//! edge-triggered AABB collisions, damage and entity lifecycles.
//!
//! All lengths are integers in sub-pixels (`geometry::SUBPIXELS` per pixel),
//! all durations in milliseconds.

pub mod geometry;
pub mod motion;
pub mod timer;
pub mod entity;
pub mod collision;
pub mod world;
pub mod lifecycle;
pub mod spawn;
pub mod shooting;
pub mod frame;
