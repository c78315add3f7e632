//! The value types that make up one stipple dot: a fixed-point position and
//! an RGB color.

use vstd::prelude::*;

verus! {

/// An RGB color with one byte per channel, sampled from the color source at a
/// stipple point's final position.
#[derive(Clone, Copy, PartialEq, Eq, Structural, Debug)]
pub struct PointColor {
    pub r: u8,
    pub g: u8,
    pub b: u8,
}

impl PointColor {
    pub fn new(r: u8, g: u8, b: u8) -> (c: PointColor)
        ensures
            c.r == r,
            c.g == g,
            c.b == b,
    {
        PointColor { r, g, b }
    }
}

/// A 2D position in fixed-point raster coordinates: `x` and `y` count
/// subpixel units, `crate::FP_SCALE` of them per pixel, so the pixel
/// coordinate of a point is `x / FP_SCALE`.
#[derive(Clone, Copy, PartialEq, Eq, Structural, Debug)]
pub struct Point {
    pub x: u32,
    pub y: u32,
}

impl Point {
    pub fn new(x: u32, y: u32) -> (p: Point)
        ensures
            p.x == x,
            p.y == y,
    {
        Point { x, y }
    }
}

/// A point lies inside a `width` by `height` raster when each coordinate is
/// at most the fixed-point position of the last pixel on its axis; in pixel
/// units that places it in `[0, width) x [0, height)`.
pub open spec fn point_in_bounds(p: Point, width: int, height: int) -> bool {
    p.x <= (width - 1) * crate::FP_SCALE && p.y <= (height - 1) * crate::FP_SCALE
}

/// Every point of the sequence lies inside the raster.
pub open spec fn points_in_bounds(pts: Seq<Point>, width: int, height: int) -> bool {
    forall|i: int| 0 <= i < pts.len() ==> point_in_bounds(#[trigger] pts[i], width, height)
}

} // verus!
