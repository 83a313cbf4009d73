//! A procedurally generated 2D tile world with streaming terrain and
//! entity physics.
//!
//! The world is an infinite strip of tiles, generated deterministically
//! from a seed, loaded in fixed-width chunks around a focus column, and
//! explored by entities subject to gravity and axis-aligned collision
//! resolution at a fixed timestep.
//!
//! Continuous quantities (positions, velocities) are fixed-point numbers
//! with 1/3600 of a tile as the unit, so that one 1/60 s timestep of
//! integration is exact integer arithmetic.

pub mod fixed;
pub mod noise_field;
pub mod util;
pub mod chunk;
pub mod terrain;
pub mod entity;
pub mod physics;
pub mod camera;
pub mod game;
pub mod player;
