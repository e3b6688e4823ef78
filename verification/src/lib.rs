//! A flock of agents that move across a wrapped arena and steer away from neighbours that
//! come too close. Neighbours are found through a quadtree over the agents' cells.
//!
//! Lengths and coordinates are fixed-point numbers: an `i64` that counts millionths of a
//! world unit.

pub mod fixed;
pub mod vec2;
pub mod arena;
pub mod boid;
pub mod index;
pub mod proximity;
pub mod force;
pub mod simulation;
