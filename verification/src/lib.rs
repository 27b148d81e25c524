//! A wireframe plot of a surface `z = f(x, y)`: the sampling grid, the order in
//! which its lines are drawn, and the clock and the driver that pace the
//! animation.
//!
//! The crate works on integers only. A real number is carried as the bit pattern
//! of its IEEE-754 encoding, and real arithmetic is supplied by the caller as a
//! function from bit patterns to bit patterns.

pub mod ratio;
pub mod clock;
pub mod grid;
pub mod plot;
pub mod wireframe;
pub mod driver;
