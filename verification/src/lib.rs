//! Simulation core of a top-down swarm-survival game: timer-driven spawning,
//! seek and separation steering, projectile and blade collision with chained
//! kills, experience/level progression, and the run/pause state machine.
//!
//! Positions are fixed-point: one world unit is 1000 position units. Time is
//! measured in microseconds; angles in microradians.

pub mod combat;
pub mod enemy;
pub mod geom;
pub mod leveling;
pub mod player;
mod rng;
pub mod sim;
pub mod waves;
