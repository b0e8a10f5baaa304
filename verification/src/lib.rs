//! Simulation core of a turn-based dungeon crawl: procedural level
//! generation, a raycast field-of-view engine, and a turn-resolution
//! state machine, with randomness drawn through an explicit source.

pub mod ability;
pub mod entity;
pub mod flavor;
pub mod fov;
pub mod game;
pub mod level;
pub mod reach;
pub mod rng;
pub mod shrine;
pub mod spawn;
pub mod text;
