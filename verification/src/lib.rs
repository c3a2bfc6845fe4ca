//! Procedural simulation core for a generative mosaic: a viewport is tiled
//! into a lattice of coloured cells sampled from a source image, and organic
//! "rust patch" polygons grow, deform and fade over it, infecting the cells
//! they cover with their colour.
//!
//! All quantities are fixed-point integers in milli-units: a coordinate of
//! `1000` stands for one display unit, a colour channel of `1000` for `1.0`,
//! a hue of `360_000` for 360 degrees.

pub mod colour;
pub mod fixed;
pub mod geometry;
pub mod grid;
pub mod image;
pub mod polygon;
pub mod rng;
pub mod rust_patches;
pub mod simulation;
