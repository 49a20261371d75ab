//! An escape-time fractal renderer: an integer (fixed-point) escape
//! evaluator for the Mandelbrot recurrence, a colour policy, and an
//! incremental canvas that amortises the per-pixel work across calls
//! while exposing a stable RGBA frame to a display or file sink.

pub mod canvas;
pub mod colour;
pub mod mandelbrot;
pub mod pixel;
