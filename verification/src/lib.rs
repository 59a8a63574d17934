//! Escape-time fractals on a sample grid over the complex plane.
//!
//! The library keeps the session of a fractal under work: the geometry of
//! the grid, the grid of escape counts and the colour palette. It counts the
//! iterations of an orbit, settles the counts into the grid, maps counts to
//! colours on a piecewise-linear palette, and assembles the image.
//!
//! Arithmetic on coordinates is left to the caller: the library carries
//! coordinates unchanged and works on whole numbers only.

pub mod escape;
pub mod fractal;
pub mod menu;
pub mod palette;
pub mod plane;
pub mod render;
pub mod settings;
