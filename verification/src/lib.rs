//! Metaballs on a character grid: a handful of bouncing balls, each an
//! inverse-distance potential, summed into one scalar field that is sampled at
//! the corners of every cell and drawn as a one-cell contour band.
//!
//! Every quantity is a 16.16 fixed-point integer (see [`fixed`]), so that the
//! whole pipeline, from the physics step to the glyph of a cell, is exact
//! integer arithmetic.
//!
//! The library decides and computes; it performs no input or output. The
//! caller reads the size of the terminal and the clock, and shows the rows of
//! glyphs that [`animation::Animation::tick`] hands out.
pub mod fixed;
pub mod config;
pub mod ball;
pub mod ballset;
pub mod raster;
pub mod pacer;
pub mod animation;
