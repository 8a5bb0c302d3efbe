//! A two-dimensional incompressible-flow solver on a staggered grid, with the
//! pixel buffer its host paints from.

pub mod fixed;
pub mod scalar;
pub mod simu;
pub mod utils;
pub mod visualization;
