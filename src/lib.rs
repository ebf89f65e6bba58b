//! Evolutionary search for the arrangement of overlapping photographs that
//! composes them into a seamless panorama.
//!
//! Geometry is held in integers: positions in pixels, angles in tenths of a
//! degree, and sines and cosines in fixed point.
pub mod angle;
pub mod config;
pub mod raster;
pub mod solution;
pub mod fitness;
pub mod mutation;
pub mod engine;
pub mod util;
pub mod thumbnail;
pub mod optimizer;
mod random;
