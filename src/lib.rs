//! Escape-time fractal rendering into flat RGB buffers, with exact
//! fixed-point coordinates and rational palette positions.

pub mod fixed;
pub mod fractal;
pub mod palette;
pub mod render;
pub mod utils;
