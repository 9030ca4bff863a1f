//! Game logic of a small arcade shooter: a paddle at the bottom of the
//! screen fires upward at invaders that fall from the top.
//!
//! Positions, sizes and screen dimensions are in thousandths of a pixel
//! (`constants::PIXEL`), with the y axis pointing down. Speeds are in pixels
//! per second and elapsed time is in milliseconds, so a movement over `dt_ms`
//! milliseconds is exactly `speed * dt_ms` units.

pub mod constants;
pub mod geometry;
pub mod random;
pub mod spawn;
pub mod collision;
pub mod fire;
pub mod clock;
pub mod update;
pub mod controls;
pub mod game;
pub mod highscore;
