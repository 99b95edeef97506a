//! Authoritative simulation core for a real-time multiplayer arena game.
//!
//! The world is a square torus: entities (ships, projectiles, drifting
//! asteroids) move on a fixed tick schedule, wrap at the world edge, and are
//! resolved against each other once per tick. All geometry is carried in
//! fixed-point thousandths of a world unit so that every rule of the
//! simulation is plain integer arithmetic.

pub mod asteroid;
pub mod asteroid_collection;
pub mod bullet;
pub mod bullet_collection;
pub mod collision;
pub mod entropy;
pub mod fixed;
pub mod game;
pub mod numfmt;
pub mod player;
pub mod player_collection;
pub mod text;

use vstd::prelude::*;

verus! {

/// Simulation ticks per second.
pub const TICK_RATE: u32 = 32;

/// Side length of the square world, in world units.
pub const WORLD_SIZE: i64 = 1000;

/// Fixed-point scale: all coordinates and velocities are integers counting
/// thousandths of a world unit.
pub const FP: i64 = 1000;

/// Side length of the world in fixed-point coordinates.
pub const WORLD_FP: i64 = WORLD_SIZE * FP;

} // verus!
