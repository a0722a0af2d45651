//! A small arcade simulation: a ball bounces inside a bounded arena,
//! reflecting off walls and a player-controlled paddle, and is rendered
//! together with a row of static bricks and a debug-text overlay into a
//! packed-RGB pixel buffer.
//!
//! World coordinates are fixed-point: one world unit (the arena spans
//! `[-1, +1]` on each axis) is `fixed::SCALE` units of an `i64`, so every
//! simulation step is exact integer arithmetic with stated rounding.

pub mod canvas;
pub mod draw;
pub mod fixed;
pub mod state;
pub mod stats;
pub mod text;
