//! An N-body gravitational simulation on fixed-point numbers.
//!
//! Bodies move under mutual gravity inside a bounded arena. Every quantity
//! is a [`utils::fixed::Fixed`] value with nine decimal places whose
//! arithmetic saturates instead of overflowing, so one tick is a total,
//! deterministic function of the bodies and of the values drawn from the
//! random source.
pub mod celestial_bodies;
pub mod simulation;
pub mod utils;
