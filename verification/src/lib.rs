//! An interactively explorable Mandelbrot-set renderer.
//!
//! The library computes a per-pixel escape-time fractal over a square
//! framebuffer, maps iteration counts to packed RGBA colors, and fills the
//! frame tile by tile so that independent tiles can be computed in parallel.
//! Plane coordinates are held in signed 64-bit fixed-point form (65536 raw
//! units per plane unit), which keeps every arithmetic step exact and
//! verifiable; extreme zoom depths lose precision, an accepted limitation of
//! the renderer.

pub mod color;
pub mod escape;
pub mod fixed;
pub mod render;
