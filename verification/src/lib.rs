//! A rendering-support kernel for an animated wavy line.
//!
//! Once per animation frame the engine produces a one-dimensional height
//! field: a background oscillation plus a bounded set of transient ripple
//! disturbances injected by the caller.  All quantities are fixed-point
//! numbers (scale 1/65536) held in `i128`, so every computation here is
//! exact integer arithmetic and is verified end to end.

pub mod engine;
pub mod fx;
pub mod source;
pub mod stamp;
pub mod tables;

pub use engine::WaveEngine;
