//! Entity lifecycle and timed-animation engine of a small top-down arcade
//! game: timers, easing curves, barrel lifecycles with capacity accounting,
//! the spawn scheduler, particle bursts and the camera shake queue.
//!
//! Time is counted in nanoseconds, lengths in millionths of a pixel, and
//! progress values in millionths (see `units`).

pub mod units;
pub mod timer;
pub mod easing;
pub mod barrel;
pub mod manager;
pub mod shake;
pub mod particle;
pub mod rng;
pub mod score;
