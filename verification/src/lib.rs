//! A verified 2D height-field ("terrain") library: a dense grid container,
//! parametric initial-condition generators, a plain-text grayscale raster
//! importer, and an explicit predictor-corrector relaxation solver that
//! diffuses the field toward a smoothed equilibrium.
//!
//! All heights, velocities and solver constants are fixed-point values: an
//! `i64` stores the real number `v / SCALE` (see [`fixed`]).  Arithmetic
//! saturates at the `i64` range instead of wrapping or panicking.

pub mod fixed;
pub mod grid;
pub mod pgm;
pub mod scenario;
pub mod solver;
pub mod terrain;
