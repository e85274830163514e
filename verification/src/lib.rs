//! Escape-time fractal rendering engine.
//!
//! The engine computes Mandelbrot, Julia and multi-Julia escape-time images
//! and Barnsley-fern point clouds over a fixed-point model of the complex
//! plane, maps iteration results to colors, and assembles a flat row-major
//! output buffer.  Persisting the buffer as an image file is left to callers.

pub mod barnsley;
pub mod buffer;
pub mod color;
pub mod complex;
pub mod coords;
pub mod escape;
pub mod render;
pub mod rng;
pub mod text;
pub mod fixed;
pub mod parse;
