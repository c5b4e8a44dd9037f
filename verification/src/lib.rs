//! A verified Mandelbrot-set renderer.
//!
//! The complex plane is modelled with fixed-point coordinates: an `i64`
//! holds a real number scaled by `complex::SCALE`.  Every rendering
//! component — the coordinate mapper, the escape-time evaluator, the
//! scanline renderer and the band scheduler — is specified and verified
//! over that model.

pub mod bands;
pub mod complex;
pub mod encode;
pub mod escape;
pub mod mapper;
pub mod parse;
pub mod render;
