//! Cell assignment engine: every raster pixel is assigned to its nearest
//! point by squared Euclidean distance, ties broken by the lowest point
//! index, and each point's cell accumulates the sums needed for a weighted
//! centroid.

use vstd::prelude::*;
use vstd::arithmetic::div_mod::lemma_fundamental_div_mod;
use crate::point::{Point, points_in_bounds};
use crate::field::DensityField;
use crate::FP_SCALE;

verus! {

/// Squared Euclidean distance, in fixed-point units, between point `p` and
/// the position `(qx, qy)` (also in fixed-point units).
pub open spec fn dist_sq(p: Point, qx: int, qy: int) -> int {
    (p.x - qx) * (p.x - qx) + (p.y - qy) * (p.y - qy)
}

/// Index of the point nearest to `(qx, qy)` among the first `k` points of
/// `pts`, ties broken by the lowest index.
pub open spec fn nearest_upto(pts: Seq<Point>, k: int, qx: int, qy: int) -> int
    recommends
        1 <= k <= pts.len(),
    decreases k,
{
    if k <= 1 {
        0
    } else {
        let b = nearest_upto(pts, k - 1, qx, qy);
        if dist_sq(pts[k - 1], qx, qy) < dist_sq(pts[b], qx, qy) {
            k - 1
        } else {
            b
        }
    }
}

/// Index of the point of `pts` nearest to `(qx, qy)`, ties broken by the
/// lowest index.
pub open spec fn nearest(pts: Seq<Point>, qx: int, qy: int) -> int {
    nearest_upto(pts, pts.len() as int, qx, qy)
}

/// The nearest index among the first `k` points is valid and realizes the
/// minimal distance over those points.
pub proof fn lemma_nearest_upto(pts: Seq<Point>, k: int, qx: int, qy: int)
    requires
        1 <= k <= pts.len(),
    ensures
        0 <= nearest_upto(pts, k, qx, qy) < k,
        forall|j: int|
            0 <= j < k ==> dist_sq(pts[nearest_upto(pts, k, qx, qy)], qx, qy) <= dist_sq(
                #[trigger] pts[j],
                qx,
                qy,
            ),
    decreases k,
{
    if k > 1 {
        lemma_nearest_upto(pts, k - 1, qx, qy);
    }
}

/// The point chosen for a pixel is no farther from it than any other point.
pub proof fn lemma_nearest(pts: Seq<Point>, qx: int, qy: int)
    requires
        pts.len() >= 1,
    ensures
        0 <= nearest(pts, qx, qy) < pts.len(),
        forall|j: int|
            0 <= j < pts.len() ==> dist_sq(pts[nearest(pts, qx, qy)], qx, qy) <= dist_sq(
                #[trigger] pts[j],
                qx,
                qy,
            ),
{
    lemma_nearest_upto(pts, pts.len() as int, qx, qy);
}

/// Largest fixed-point coordinate the engine ever feeds to a distance
/// computation: `(MAX_DIM - 1) * FP_SCALE` rounded up to a power of two.
pub const FP_COORD_MAX: u32 = 0x80_0000;

/// Squared distance between a point and a fixed-point position; exact
/// realization of `dist_sq`.
pub fn dist_sq_exec(p: &Point, qx: u32, qy: u32) -> (d: u64)
    requires
        p.x <= FP_COORD_MAX,
        p.y <= FP_COORD_MAX,
        qx <= FP_COORD_MAX,
        qy <= FP_COORD_MAX,
    ensures
        d as int == dist_sq(*p, qx as int, qy as int),
{
    let dx: i64 = p.x as i64 - qx as i64;
    let dy: i64 = p.y as i64 - qy as i64;
    proof {
        assert(dx * dx <= 0x4000_0000_0000 && dx * dx >= 0) by (nonlinear_arith)
            requires
                -0x80_0000 <= dx <= 0x80_0000,
        ;
        assert(dy * dy <= 0x4000_0000_0000 && dy * dy >= 0) by (nonlinear_arith)
            requires
                -0x80_0000 <= dy <= 0x80_0000,
        ;
    }
    (dx * dx + dy * dy) as u64
}

/// Finds the index of the nearest point to `(qx, qy)`, ties broken by the
/// lowest index.
pub fn nearest_point(pts: &Vec<Point>, qx: u32, qy: u32) -> (r: usize)
    requires
        pts@.len() >= 1,
        forall|i: int|
            0 <= i < pts@.len() ==> (#[trigger] pts@[i]).x <= FP_COORD_MAX && pts@[i].y
                <= FP_COORD_MAX,
        qx <= FP_COORD_MAX,
        qy <= FP_COORD_MAX,
    ensures
        r as int == nearest(pts@, qx as int, qy as int),
        r < pts@.len(),
{
    let mut best: usize = 0;
    let mut best_d: u64 = dist_sq_exec(&pts[0], qx, qy);
    let mut k: usize = 1;
    while k < pts.len()
        invariant
            1 <= k <= pts@.len(),
            pts@.len() >= 1,
            forall|i: int|
                0 <= i < pts@.len() ==> (#[trigger] pts@[i]).x <= FP_COORD_MAX && pts@[i].y
                    <= FP_COORD_MAX,
            qx <= FP_COORD_MAX,
            qy <= FP_COORD_MAX,
            best as int == nearest_upto(pts@, k as int, qx as int, qy as int),
            best < k,
            best_d as int == dist_sq(pts@[best as int], qx as int, qy as int),
        decreases pts@.len() - k,
    {
        let d = dist_sq_exec(&pts[k], qx, qy);
        if d < best_d {
            best = k;
            best_d = d;
        }
        k = k + 1;
        proof {
            assert(best as int == nearest_upto(pts@, k as int, qx as int, qy as int));
        }
    }
    best
}

/// Spec-level accumulator of one cell: total weight and the weighted sums of
/// the pixel coordinates (in whole-pixel units) of the pixels assigned to it.
pub struct CellAcc {
    pub w: int,
    pub sx: int,
    pub sy: int,
}

/// A sequence of empty accumulators, one per point.
pub open spec fn init_accs(n: nat) -> Seq<CellAcc> {
    Seq::new(n, |i: int| CellAcc { w: 0, sx: 0, sy: 0 })
}

/// Accumulators after the first `k` pixels (in row-major order) have been
/// assigned to their nearest points.
pub open spec fn accs_upto(pts: Seq<Point>, ws: Seq<u8>, width: nat, k: nat) -> Seq<CellAcc>
    recommends
        width > 0,
        pts.len() >= 1,
        k <= ws.len(),
    decreases k,
{
    if k == 0 {
        init_accs(pts.len())
    } else {
        let prev = accs_upto(pts, ws, width, (k - 1) as nat);
        let px = (k - 1) as int % width as int;
        let py = (k - 1) as int / width as int;
        let i = nearest(pts, px * FP_SCALE, py * FP_SCALE);
        prev.update(
            i,
            CellAcc {
                w: prev[i].w + ws[k - 1],
                sx: prev[i].sx + ws[k - 1] * px,
                sy: prev[i].sy + ws[k - 1] * py,
            },
        )
    }
}

/// Accumulators of a full assignment pass over a `width` by `height` raster.
pub open spec fn cell_accs(pts: Seq<Point>, ws: Seq<u8>, width: nat, height: nat) -> Seq<
    CellAcc,
> {
    accs_upto(pts, ws, width, width * height)
}

/// Accumulation preserves the one-accumulator-per-point shape.
pub proof fn lemma_accs_len(pts: Seq<Point>, ws: Seq<u8>, width: nat, k: nat)
    requires
        pts.len() >= 1,
    ensures
        accs_upto(pts, ws, width, k).len() == pts.len(),
    decreases k,
{
    if k > 0 {
        lemma_accs_len(pts, ws, width, (k - 1) as nat);
        let px = (k - 1) as int % width as int;
        let py = (k - 1) as int / width as int;
        lemma_nearest(pts, px * FP_SCALE, py * FP_SCALE);
    }
}

/// Every accumulator stays within the bounds dictated by the pixels that can
/// have fed it: weights are bytes and coordinates sit inside the raster, so
/// each coordinate sum is at most the matching raster bound times the cell's
/// weight.
pub proof fn lemma_accs_bounds(pts: Seq<Point>, ws: Seq<u8>, width: nat, height: nat, k: nat)
    requires
        width > 0,
        height > 0,
        pts.len() >= 1,
        k <= width * height,
        ws.len() == width * height,
    ensures
        accs_upto(pts, ws, width, k).len() == pts.len(),
        forall|i: int|
            0 <= i < pts.len() ==> {
                let a = #[trigger] accs_upto(pts, ws, width, k)[i];
                &&& 0 <= a.w <= 255 * k
                &&& 0 <= a.sx <= a.w * (width - 1)
                &&& 0 <= a.sy <= a.w * (height - 1)
            },
    decreases k,
{
    if k > 0 {
        lemma_accs_bounds(pts, ws, width, height, (k - 1) as nat);
        let prev = accs_upto(pts, ws, width, (k - 1) as nat);
        let px = (k - 1) as int % width as int;
        let py = (k - 1) as int / width as int;
        let i = nearest(pts, px * FP_SCALE, py * FP_SCALE);
        lemma_nearest(pts, px * FP_SCALE, py * FP_SCALE);
        assert(0 <= px < width);
        assert(0 <= py < height) by {
            lemma_fundamental_div_mod(k - 1, width as int);
            assert((k - 1) as int == width * py + px);
            if py >= height {
                assert(width * py >= width * height) by (nonlinear_arith)
                    requires
                        py >= height,
                        width > 0,
                ;
            }
            if py < 0 {
                assert(width * py < 0) by (nonlinear_arith)
                    requires
                        py < 0,
                        width > 0,
                ;
            }
        }
        let wq = ws[k - 1] as int;
        assert(wq * px <= wq * (width - 1) && wq * px >= 0) by (nonlinear_arith)
            requires
                0 <= wq,
                0 <= px <= width - 1,
        ;
        assert(wq * py <= wq * (height - 1) && wq * py >= 0) by (nonlinear_arith)
            requires
                0 <= wq,
                0 <= py <= height - 1,
        ;
        assert(prev[i].sx + wq * px <= (prev[i].w + wq) * (width - 1)) by (nonlinear_arith)
            requires
                prev[i].sx <= prev[i].w * (width - 1),
                wq * px <= wq * (width - 1),
                width >= 1,
        ;
        assert(prev[i].sy + wq * py <= (prev[i].w + wq) * (height - 1)) by (nonlinear_arith)
            requires
                prev[i].sy <= prev[i].w * (height - 1),
                wq * py <= wq * (height - 1),
                height >= 1,
        ;
    }
}

/// Executable accumulator of one cell, mirroring `CellAcc` in 64-bit
/// integers.
#[derive(Clone, Copy, PartialEq, Eq, Structural, Debug)]
pub struct CellSum {
    pub w: u64,
    pub sx: u64,
    pub sy: u64,
}

/// The executable accumulators match the spec accumulators component by
/// component.
pub open spec fn sums_match(accs: Seq<CellSum>, spec_accs: Seq<CellAcc>) -> bool {
    &&& accs.len() == spec_accs.len()
    &&& forall|i: int|
        0 <= i < accs.len() ==> {
            &&& (#[trigger] accs[i]).w as int == spec_accs[i].w
            &&& accs[i].sx as int == spec_accs[i].sx
            &&& accs[i].sy as int == spec_accs[i].sy
        }
}

/// Runs one full assignment pass: every pixel of the raster is assigned to
/// its nearest point and the per-cell weight and coordinate sums are
/// accumulated, exactly as `cell_accs` describes.
pub fn compute_cells(pts: &Vec<Point>, df: &DensityField) -> (accs: Vec<CellSum>)
    requires
        df.wf(),
        df.width >= 1,
        df.height >= 1,
        pts@.len() >= 1,
        points_in_bounds(pts@, df.width as int, df.height as int),
    ensures
        sums_match(accs@, cell_accs(pts@, df.weights@, df.width as nat, df.height as nat)),
{
    let ghost ws = df.weights@;
    let ghost width = df.width as nat;
    let ghost height = df.height as nat;
    let mut accs: Vec<CellSum> = Vec::new();
    let mut j: usize = 0;
    while j < pts.len()
        invariant
            accs@.len() == j,
            j <= pts@.len(),
            forall|i: int|
                0 <= i < j ==> (#[trigger] accs@[i]).w == 0 && accs@[i].sx == 0 && accs@[i].sy
                    == 0,
        decreases pts@.len() - j,
    {
        accs.push(CellSum { w: 0, sx: 0, sy: 0 });
        j = j + 1;
    }
    proof {
        assert(sums_match(accs@, accs_upto(pts@, ws, width, 0)));
    }
    proof {
        assert(df.width * df.height <= 0x4000_0000) by (nonlinear_arith)
            requires
                df.width <= 32768,
                df.height <= 32768,
        ;
    }
    let area: usize = df.width * df.height;
    let mut idx: usize = 0;
    while idx < area
        invariant
            df.wf(),
            df.width >= 1,
            df.height >= 1,
            pts@.len() >= 1,
            points_in_bounds(pts@, df.width as int, df.height as int),
            ws == df.weights@,
            width == df.width as nat,
            height == df.height as nat,
            area == df.width * df.height,
            idx <= area,
            sums_match(accs@, accs_upto(pts@, ws, width, idx as nat)),
        decreases area - idx,
    {
        proof {
            lemma_accs_bounds(pts@, ws, width, height, idx as nat);
            assert(df.width * df.height <= 0x4000_0000) by (nonlinear_arith)
                requires
                    df.width <= 32768,
                    df.height <= 32768,
            ;
        }
        let px: usize = idx % df.width;
        let py: usize = idx / df.width;
        proof {
            lemma_fundamental_div_mod(idx as int, df.width as int);
            if py >= df.height {
                assert((df.width as int) * (py as int) >= (df.width as int) * (df.height as int))
                    by (nonlinear_arith)
                    requires
                        py >= df.height,
                        df.width >= 1,
                ;
            }
        }
        let qx: u32 = (px as u32) * FP_SCALE;
        let qy: u32 = (py as u32) * FP_SCALE;
        proof {
            assert(forall|i: int|
                0 <= i < pts@.len() ==> (#[trigger] pts@[i]).x <= FP_COORD_MAX && pts@[i].y
                    <= FP_COORD_MAX);
        }
        let i = nearest_point(pts, qx, qy);
        let wq: u64 = df.weights[idx] as u64;
        let cur = accs[i];
        proof {
            let a = accs_upto(pts@, ws, width, idx as nat)[i as int];
            assert(a.w <= 255 * (idx as int));
            assert(a.sx <= a.w * (width - 1) && a.sy <= a.w * (height - 1));
            assert(a.w * (width - 1) <= (255 * 0x4000_0000) * 32768) by (nonlinear_arith)
                requires
                    0 <= a.w <= 255 * 0x4000_0000,
                    0 <= width - 1 <= 32768,
            ;
            assert(a.sy <= (255 * 0x4000_0000) * 32768) by (nonlinear_arith)
                requires
                    a.sy <= a.w * (height - 1),
                    0 <= a.w <= 255 * 0x4000_0000,
                    0 <= height - 1 <= 32768,
            ;
            assert(wq * px <= 255 * 32768 && wq * py <= 255 * 32768 && wq * px >= 0 && wq * py
                >= 0) by (nonlinear_arith)
                requires
                    0 <= wq <= 255,
                    0 <= px <= 32768,
                    0 <= py <= 32768,
            ;
        }
        let nsx: u64 = cur.sx + wq * (px as u64);
        let nsy: u64 = cur.sy + wq * (py as u64);
        let nw: u64 = cur.w + wq;
        accs.set(i, CellSum { w: nw, sx: nsx, sy: nsy });
        idx = idx + 1;
        proof {
            let prev = accs_upto(pts@, ws, width, (idx - 1) as nat);
            assert(accs_upto(pts@, ws, width, idx as nat) == prev.update(
                nearest(pts@, (px as int) * FP_SCALE, (py as int) * FP_SCALE),
                CellAcc {
                    w: prev[i as int].w + ws[idx - 1],
                    sx: prev[i as int].sx + ws[idx - 1] * (px as int),
                    sy: prev[i as int].sy + ws[idx - 1] * (py as int),
                },
            ));
        }
    }
    accs
}

} // verus!
