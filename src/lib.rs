//! Procedural layout of a two-dimensional battle arena.
//!
//! Coordinates live on an integer grid: every position, width and radius is a
//! whole number of grid steps, so that every geometric test below is exact.
//! The arena is carved into team zones by a recursive halving partition, and
//! players and obstacles are placed by seeded rejection sampling, with the
//! no-overlap rules proved to hold of whatever the sampler drew.

pub mod game;
pub mod geometry;
mod random;
pub mod utils;
