//! A weighted-Voronoi stippling engine.
//!
//! Given a grayscale density map and a color source of identical dimensions,
//! the engine produces a set of point positions whose spatial distribution
//! approximates the density map, refined by Lloyd relaxation, each point
//! annotated with a radius (derived from its cell's weight mass) and a color
//! (sampled from the color source at the point's final position).
//!
//! All geometry is carried out in fixed-point integer arithmetic: a point
//! coordinate is stored in subpixel units, `FP_SCALE` units per pixel, so that
//! every step of the computation is exact and reproducible.

use vstd::prelude::*;

pub mod rng;
pub mod point;
pub mod field;
pub mod assign;
pub mod relax;
pub mod sampler;
pub mod stipple;
pub mod laws;

verus! {

/// Number of fixed-point subunits per pixel.
pub const FP_SCALE: u32 = 256;

} // verus!
