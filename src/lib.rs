//! Tile-based collision and actor movement for a small platformer.
//!
//! Positions are whole pixels, velocities milli-pixels per second, elapsed
//! time milliseconds, and sub-pixel motion is carried as micro-pixels.

pub mod config;
pub mod grid;
pub mod spawn;
pub mod world;
pub mod actor;
pub mod encounter;
pub mod game;
