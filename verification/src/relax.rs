//! Relaxation loop: each pass re-assigns every pixel to its nearest point and
//! moves every point with a nonempty cell to its cell's density-weighted
//! centroid (Lloyd's algorithm). A point whose cell carries no weight keeps
//! its position. The pass count is fixed by the caller; zero passes leave the
//! initial points untouched.

use vstd::prelude::*;
use vstd::arithmetic::div_mod::{lemma_div_pos_is_pos, lemma_multiply_divide_lt};
use crate::point::{Point, points_in_bounds};
use crate::field::DensityField;
use crate::assign::{CellAcc, CellSum, cell_accs, compute_cells, lemma_accs_bounds, sums_match};
use crate::FP_SCALE;

verus! {

/// `s / w` rounded to the nearest integer (halves rounded up): the quotient
/// that moves a point as close as an integer position allows to the exact
/// weighted centroid.
pub open spec fn rnd_div(s: int, w: int) -> int
    recommends
        w > 0,
{
    (2 * s + w) / (2 * w)
}

/// Rounded division respects the range of the exact quotient: with
/// `0 <= s <= m * w` the result lies in `[0, m]`.
pub proof fn lemma_rnd_div_range(s: int, w: int, m: int)
    requires
        w > 0,
        0 <= s,
        s <= m * w,
        0 <= m,
    ensures
        0 <= rnd_div(s, w) <= m,
{
    lemma_div_pos_is_pos(2 * s + w, 2 * w);
    assert(2 * s + w < (2 * w) * (m + 1)) by (nonlinear_arith)
        requires
            s <= m * w,
            w > 0,
    ;
    lemma_multiply_divide_lt(2 * s + w, 2 * w, m + 1);
}

/// The new position of every point given its cell's accumulators: a point
/// with positive cell weight moves to the rounded weighted centroid (the
/// coordinate sums are in whole pixels, so they are scaled to fixed-point
/// units before dividing); a point with an empty or weightless cell stays.
pub open spec fn move_points(pts: Seq<Point>, accs: Seq<CellAcc>) -> Seq<Point>
    recommends
        accs.len() == pts.len(),
{
    Seq::new(
        pts.len(),
        |i: int|
            if accs[i].w <= 0 {
                pts[i]
            } else {
                Point {
                    x: rnd_div(accs[i].sx * FP_SCALE, accs[i].w) as u32,
                    y: rnd_div(accs[i].sy * FP_SCALE, accs[i].w) as u32,
                }
            },
    )
}

/// One relaxation pass: assign all pixels, then move each point to its
/// cell's weighted centroid.
pub open spec fn relax_once(ws: Seq<u8>, width: nat, height: nat, pts: Seq<Point>) -> Seq<
    Point,
> {
    move_points(pts, cell_accs(pts, ws, width, height))
}

/// `n` relaxation passes applied to `pts`.
pub open spec fn relax_n(ws: Seq<u8>, width: nat, height: nat, pts: Seq<Point>, n: nat) -> Seq<
    Point,
>
    decreases n,
{
    if n == 0 {
        pts
    } else {
        relax_once(ws, width, height, relax_n(ws, width, height, pts, (n - 1) as nat))
    }
}

/// One relaxation pass keeps every point inside the raster: a centroid of
/// in-raster pixels is in-raster, and an unmoved point was there already.
pub proof fn lemma_relax_once_in_bounds(ws: Seq<u8>, width: nat, height: nat, pts: Seq<Point>)
    requires
        width >= 1,
        height >= 1,
        width <= 32768,
        height <= 32768,
        pts.len() >= 1,
        ws.len() == width * height,
        points_in_bounds(pts, width as int, height as int),
    ensures
        relax_once(ws, width, height, pts).len() == pts.len(),
        points_in_bounds(relax_once(ws, width, height, pts), width as int, height as int),
{
    let accs = cell_accs(pts, ws, width, height);
    lemma_accs_bounds(pts, ws, width, height, width * height);
    let out = relax_once(ws, width, height, pts);
    assert forall|i: int| 0 <= i < out.len() implies crate::point::point_in_bounds(
        #[trigger] out[i],
        width as int,
        height as int,
    ) by {
        if accs[i].w > 0 {
            assert(accs[i].sx * FP_SCALE <= ((width - 1) * FP_SCALE) * accs[i].w
                && accs[i].sx * FP_SCALE >= 0) by (nonlinear_arith)
                requires
                    0 <= accs[i].sx <= accs[i].w * (width - 1),
                    accs[i].w > 0,
                    width >= 1,
                    FP_SCALE == 256,
            ;
            lemma_rnd_div_range(accs[i].sx * FP_SCALE, accs[i].w, (width - 1) * FP_SCALE);
            assert(accs[i].sy * FP_SCALE <= ((height - 1) * FP_SCALE) * accs[i].w
                && accs[i].sy * FP_SCALE >= 0) by (nonlinear_arith)
                requires
                    0 <= accs[i].sy <= accs[i].w * (height - 1),
                    accs[i].w > 0,
                    height >= 1,
                    FP_SCALE == 256,
            ;
            lemma_rnd_div_range(accs[i].sy * FP_SCALE, accs[i].w, (height - 1) * FP_SCALE);
        }
    }
}

/// Runs one relaxation pass over the point set; the result is exactly
/// `relax_once` of the input.
pub fn relax_once_exec(pts: &Vec<Point>, df: &DensityField) -> (out: Vec<Point>)
    requires
        df.wf(),
        df.width >= 1,
        df.height >= 1,
        pts@.len() >= 1,
        points_in_bounds(pts@, df.width as int, df.height as int),
    ensures
        out@ == relax_once(df.weights@, df.width as nat, df.height as nat, pts@),
        out@.len() == pts@.len(),
        points_in_bounds(out@, df.width as int, df.height as int),
{
    let ghost ws = df.weights@;
    let ghost width = df.width as nat;
    let ghost height = df.height as nat;
    let accs: Vec<CellSum> = compute_cells(pts, df);
    proof {
        lemma_accs_bounds(pts@, ws, width, height, width * height);
        lemma_relax_once_in_bounds(ws, width, height, pts@);
    }
    let mut out: Vec<Point> = Vec::new();
    let mut i: usize = 0;
    while i < pts.len()
        invariant
            df.wf(),
            df.width >= 1,
            df.height >= 1,
            pts@.len() >= 1,
            points_in_bounds(pts@, df.width as int, df.height as int),
            ws == df.weights@,
            width == df.width as nat,
            height == df.height as nat,
            i <= pts@.len(),
            sums_match(accs@, cell_accs(pts@, ws, width, height)),
            out@ =~= relax_once(ws, width, height, pts@).take(i as int),
        decreases pts@.len() - i,
    {
        let ghost spec_accs = cell_accs(pts@, ws, width, height);
        proof {
            lemma_accs_bounds(pts@, ws, width, height, width * height);
            assert(width * height <= 0x4000_0000) by (nonlinear_arith)
                requires
                    width <= 32768,
                    height <= 32768,
            ;
        }
        let a = accs[i];
        let p: Point;
        if a.w == 0 {
            p = pts[i];
        } else {
            proof {
                let sa = spec_accs[i as int];
                assert(sa.w <= 255 * (width * height));
                assert(255 * (width * height) <= 255 * 0x4000_0000) by (nonlinear_arith)
                    requires
                        width * height <= 0x4000_0000,
                ;
                assert(0 <= sa.w <= 255 * 0x4000_0000);
                assert(sa.sx * FP_SCALE <= ((width - 1) * FP_SCALE) * sa.w && sa.sx * FP_SCALE
                    >= 0) by (nonlinear_arith)
                    requires
                        0 <= sa.sx <= sa.w * (width - 1),
                        sa.w > 0,
                        width >= 1,
                        FP_SCALE == 256,
                ;
                assert(sa.sy * FP_SCALE <= ((height - 1) * FP_SCALE) * sa.w && sa.sy * FP_SCALE
                    >= 0) by (nonlinear_arith)
                    requires
                        0 <= sa.sy <= sa.w * (height - 1),
                        sa.w > 0,
                        height >= 1,
                        FP_SCALE == 256,
                ;
                assert(((width - 1) * FP_SCALE) * sa.w <= (32768 * 256) * (255 * 0x4000_0000))
                    by (nonlinear_arith)
                    requires
                        0 <= (width - 1) * FP_SCALE <= 32768 * 256,
                        0 <= sa.w <= 255 * 0x4000_0000,
                ;
                assert(((height - 1) * FP_SCALE) * sa.w <= (32768 * 256) * (255 * 0x4000_0000))
                    by (nonlinear_arith)
                    requires
                        0 <= (height - 1) * FP_SCALE <= 32768 * 256,
                        0 <= sa.w <= 255 * 0x4000_0000,
                ;
                lemma_rnd_div_range(sa.sx * FP_SCALE, sa.w, (width - 1) * FP_SCALE);
                lemma_rnd_div_range(sa.sy * FP_SCALE, sa.w, (height - 1) * FP_SCALE);
            }
            let sxf: u64 = a.sx * (FP_SCALE as u64);
            let syf: u64 = a.sy * (FP_SCALE as u64);
            let cx: u64 = (2 * sxf + a.w) / (2 * a.w);
            let cy: u64 = (2 * syf + a.w) / (2 * a.w);
            p = Point { x: cx as u32, y: cy as u32 };
        }
        out.push(p);
        i = i + 1;
    }
    proof {
        assert(relax_once(ws, width, height, pts@).take(pts@.len() as int) =~= relax_once(
            ws,
            width,
            height,
            pts@,
        ));
        assert(out@ =~= relax_once(ws, width, height, pts@));
    }
    out
}

/// Runs `iterations` relaxation passes; the result is exactly `relax_n` of
/// the input.
pub fn relax_exec(pts: Vec<Point>, df: &DensityField, iterations: usize) -> (out: Vec<Point>)
    requires
        df.wf(),
        df.width >= 1,
        df.height >= 1,
        pts@.len() >= 1,
        points_in_bounds(pts@, df.width as int, df.height as int),
    ensures
        out@ == relax_n(
            df.weights@,
            df.width as nat,
            df.height as nat,
            pts@,
            iterations as nat,
        ),
        out@.len() == pts@.len(),
        points_in_bounds(out@, df.width as int, df.height as int),
{
    let ghost ws = df.weights@;
    let ghost width = df.width as nat;
    let ghost height = df.height as nat;
    let ghost pts0 = pts@;
    let mut cur = pts;
    let mut it: usize = 0;
    while it < iterations
        invariant
            df.wf(),
            df.width >= 1,
            df.height >= 1,
            ws == df.weights@,
            width == df.width as nat,
            height == df.height as nat,
            it <= iterations,
            pts0.len() >= 1,
            points_in_bounds(pts0, df.width as int, df.height as int),
            cur@ == relax_n(ws, width, height, pts0, it as nat),
            cur@.len() == pts0.len(),
            points_in_bounds(cur@, df.width as int, df.height as int),
        decreases iterations - it,
    {
        cur = relax_once_exec(&cur, df);
        it = it + 1;
        proof {
            assert(relax_n(ws, width, height, pts0, it as nat) == relax_once(
                ws,
                width,
                height,
                relax_n(ws, width, height, pts0, (it - 1) as nat),
            ));
        }
    }
    cur
}

} // verus!
