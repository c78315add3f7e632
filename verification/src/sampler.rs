//! Initial point sampler: rejection sampling biased by the density field.
//!
//! Each attempt draws a pixel uniformly at random and a threshold in
//! `[0, 256)`, and accepts the pixel when its weight exceeds the threshold,
//! so a pixel of weight `w` is accepted with probability `w / 256` and a
//! zero-weight pixel never. The number of attempts is bounded by a fixed
//! multiple of the raster area; if the bound runs out, the remaining points
//! are drawn uniformly from the pixels with positive weight. The requested
//! count is capped at the number of positive-weight pixels.

use vstd::prelude::*;
use vstd::math::min;
use vstd::arithmetic::div_mod::lemma_fundamental_div_mod;
use crate::point::{Point, point_in_bounds};
use crate::field::{DensityField, pos_indices, pos_count, lemma_pos_indices_valid};
use crate::rng::{rng_next, rng_next_spec, rng_below, rng_below_spec};
use crate::FP_SCALE;

verus! {

/// Attempts allowed to the rejection sampler, per requested point set: a
/// fixed multiple of the raster area.
pub const ATTEMPTS_PER_PIXEL: u64 = 16;

/// The fixed-point position of the pixel with row-major index `idx`.
pub open spec fn point_at_index(idx: int, width: int) -> Point
    recommends
        width > 0,
{
    Point { x: ((idx % width) * FP_SCALE) as u32, y: ((idx / width) * FP_SCALE) as u32 }
}

/// The point stands on a pixel whose weight is strictly positive.
pub open spec fn at_positive_pixel(p: Point, ws: Seq<u8>, width: int) -> bool {
    exists|idx: int| 0 <= idx < ws.len() && ws[idx] > 0 && p == point_at_index(idx, width)
}

/// Rejection sampling: draws a pixel and a threshold from the generator and
/// keeps the pixel when its weight beats the threshold; stops after `need`
/// acceptances or `budget` attempts, returning the accepted points and the
/// final generator state.
pub open spec fn sample_rec(ws: Seq<u8>, width: nat, need: nat, budget: nat, s: u64) -> (Seq<
    Point,
>, u64)
    recommends
        width > 0,
        ws.len() > 0,
    decreases budget,
{
    if need == 0 || budget == 0 {
        (Seq::empty(), s)
    } else {
        let s1 = rng_next_spec(s);
        let idx = rng_below_spec(s1, ws.len() as u64);
        let s2 = rng_next_spec(s1);
        let t = rng_below_spec(s2, 256);
        if ws[idx as int] > t {
            let rest = sample_rec(ws, width, (need - 1) as nat, (budget - 1) as nat, s2);
            (seq![point_at_index(idx as int, width as int)] + rest.0, rest.1)
        } else {
            sample_rec(ws, width, need, (budget - 1) as nat, s2)
        }
    }
}

/// Fallback sampling: draws `need` pixels uniformly from the positive-weight
/// pixel list.
pub open spec fn fallback_rec(ws: Seq<u8>, width: nat, need: nat, s: u64) -> Seq<Point>
    recommends
        width > 0,
        pos_count(ws) > 0,
    decreases need,
{
    if need == 0 {
        Seq::empty()
    } else {
        let s1 = rng_next_spec(s);
        let j = rng_below_spec(s1, pos_indices(ws).len() as u64);
        seq![point_at_index(pos_indices(ws)[j as int], width as int)] + fallback_rec(
            ws,
            width,
            (need - 1) as nat,
            s1,
        )
    }
}

/// The initial point set: `min(n, pos_count)` positions, drawn by rejection
/// sampling with a budget of `ATTEMPTS_PER_PIXEL` attempts per raster pixel,
/// topped up from the positive-weight pixel list if the budget runs out.
#[verifier::opaque]
pub open spec fn initial_points(ws: Seq<u8>, width: nat, n: nat, seed: u64) -> Seq<Point>
    recommends
        width > 0,
        ws.len() > 0,
        pos_count(ws) > 0,
{
    let need = min(n as int, pos_count(ws) as int) as nat;
    let r = sample_rec(ws, width, need, (ATTEMPTS_PER_PIXEL * ws.len()) as nat, seed);
    r.0 + fallback_rec(ws, width, (need - r.0.len()) as nat, r.1)
}

/// A pixel index names a pixel inside the raster, so its fixed-point
/// position is in bounds.
pub proof fn lemma_point_at_index(idx: int, width: int, height: int)
    requires
        1 <= width <= 32768,
        1 <= height <= 32768,
        0 <= idx < width * height,
    ensures
        point_in_bounds(point_at_index(idx, width), width, height),
        point_at_index(idx, width).x == (idx % width) * FP_SCALE,
        point_at_index(idx, width).y == (idx / width) * FP_SCALE,
{
    lemma_fundamental_div_mod(idx, width);
    let py = idx / width;
    if py >= height {
        assert(width * py >= width * height) by (nonlinear_arith)
            requires
                py >= height,
                width >= 1,
        ;
    }
    if py < 0 {
        assert(width * py < 0) by (nonlinear_arith)
            requires
                py < 0,
                width >= 1,
        ;
    }
    assert(0 <= (idx % width) * FP_SCALE <= (width - 1) * FP_SCALE);
    assert(0 <= py * FP_SCALE <= (height - 1) * FP_SCALE);
}

/// Rejection sampling yields at most `need` points, all inside the raster
/// and all on positive-weight pixels.
pub proof fn lemma_sample_rec_props(
    ws: Seq<u8>,
    width: nat,
    height: nat,
    need: nat,
    budget: nat,
    s: u64,
)
    requires
        1 <= width <= 32768,
        1 <= height <= 32768,
        ws.len() == width * height,
    ensures
        sample_rec(ws, width, need, budget, s).0.len() <= need,
        forall|k: int|
            0 <= k < sample_rec(ws, width, need, budget, s).0.len() ==> {
                let p = #[trigger] sample_rec(ws, width, need, budget, s).0[k];
                point_in_bounds(p, width as int, height as int) && at_positive_pixel(
                    p,
                    ws,
                    width as int,
                )
            },
    decreases budget,
{
    assert(ws.len() >= 1) by (nonlinear_arith)
        requires
            width >= 1,
            height >= 1,
            ws.len() == width * height,
    ;
    if need != 0 && budget != 0 {
        let s1 = rng_next_spec(s);
        let idx = rng_below_spec(s1, ws.len() as u64);
        let s2 = rng_next_spec(s1);
        let t = rng_below_spec(s2, 256);
        if ws[idx as int] > t {
            lemma_sample_rec_props(ws, width, height, (need - 1) as nat, (budget - 1) as nat, s2);
            lemma_point_at_index(idx as int, width as int, height as int);
            assert(ws[idx as int] > 0);
            assert(at_positive_pixel(point_at_index(idx as int, width as int), ws, width as int));
        } else {
            lemma_sample_rec_props(ws, width, height, need, (budget - 1) as nat, s2);
        }
    }
}

/// Fallback sampling yields exactly `need` points, all inside the raster and
/// all on positive-weight pixels.
pub proof fn lemma_fallback_rec_props(ws: Seq<u8>, width: nat, height: nat, need: nat, s: u64)
    requires
        1 <= width <= 32768,
        1 <= height <= 32768,
        ws.len() == width * height,
        pos_count(ws) > 0,
    ensures
        fallback_rec(ws, width, need, s).len() == need,
        forall|k: int|
            0 <= k < need ==> {
                let p = #[trigger] fallback_rec(ws, width, need, s)[k];
                point_in_bounds(p, width as int, height as int) && at_positive_pixel(
                    p,
                    ws,
                    width as int,
                )
            },
    decreases need,
{
    if need != 0 {
        let s1 = rng_next_spec(s);
        let j = rng_below_spec(s1, pos_indices(ws).len() as u64);
        lemma_pos_indices_valid(ws);
        let idx = pos_indices(ws)[j as int];
        lemma_point_at_index(idx, width as int, height as int);
        assert(at_positive_pixel(point_at_index(idx, width as int), ws, width as int));
        lemma_fallback_rec_props(ws, width, height, (need - 1) as nat, s1);
    }
}

/// The initial point set has exactly `min(n, pos_count)` points, all inside
/// the raster and all on positive-weight pixels.
pub proof fn lemma_initial_points_props(ws: Seq<u8>, width: nat, height: nat, n: nat, seed: u64)
    requires
        1 <= width <= 32768,
        1 <= height <= 32768,
        ws.len() == width * height,
        pos_count(ws) > 0,
    ensures
        initial_points(ws, width, n, seed).len() == min(n as int, pos_count(ws) as int),
        forall|k: int|
            0 <= k < initial_points(ws, width, n, seed).len() ==> {
                let p = #[trigger] initial_points(ws, width, n, seed)[k];
                point_in_bounds(p, width as int, height as int) && at_positive_pixel(
                    p,
                    ws,
                    width as int,
                )
            },
{
    reveal(initial_points);
    let need = min(n as int, pos_count(ws) as int) as nat;
    let budget = (ATTEMPTS_PER_PIXEL * ws.len()) as nat;
    lemma_sample_rec_props(ws, width, height, need, budget, seed);
    let r = sample_rec(ws, width, need, budget, seed);
    lemma_fallback_rec_props(ws, width, height, (need - r.0.len()) as nat, r.1);
}

/// Converts a row-major pixel index into the fixed-point position of that
/// pixel.
pub fn point_from_index(idx: usize, width: usize, height: usize) -> (p: Point)
    requires
        1 <= width <= 32768,
        1 <= height <= 32768,
        idx < width * height,
    ensures
        p == point_at_index(idx as int, width as int),
{
    proof {
        lemma_point_at_index(idx as int, width as int, height as int);
    }
    let px: usize = idx % width;
    let py: usize = idx / width;
    Point { x: (px as u32) * FP_SCALE, y: (py as u32) * FP_SCALE }
}

/// Draws the initial point set for the density field: exact realization of
/// `initial_points` for the given seed.
pub fn sample_initial(df: &DensityField, pos: &Vec<usize>, n: usize, seed: u64) -> (pts: Vec<
    Point,
>)
    requires
        df.wf(),
        df.width >= 1,
        df.height >= 1,
        pos@.len() == pos_indices(df.weights@).len(),
        forall|k: int|
            0 <= k < pos@.len() ==> #[trigger] pos@[k] as int == pos_indices(df.weights@)[k],
        pos@.len() > 0,
    ensures
        pts@ == initial_points(df.weights@, df.width as nat, n as nat, seed),
{
    let ghost ws = df.weights@;
    let ghost width = df.width as nat;
    let ghost height = df.height as nat;
    proof {
        assert(df.width * df.height >= 1 && df.width * df.height <= 0x4000_0000)
            by (nonlinear_arith)
            requires
                1 <= df.width <= 32768,
                1 <= df.height <= 32768,
        ;
    }
    let area: usize = df.width * df.height;
    let need: usize = if n < pos.len() {
        n
    } else {
        pos.len()
    };
    assert(need == min(n as int, pos_count(ws) as int));
    let ghost budget0 = (ATTEMPTS_PER_PIXEL * ws.len()) as nat;
    let mut budget: u64 = ATTEMPTS_PER_PIXEL * (area as u64);
    let mut s: u64 = seed;
    let mut acc: Vec<Point> = Vec::new();
    let ghost full = sample_rec(ws, width, need as nat, budget0, seed);
    while acc.len() < need && budget > 0
        invariant
            df.wf(),
            ws == df.weights@,
            width == df.width as nat,
            height == df.height as nat,
            df.width >= 1,
            df.height >= 1,
            area == df.width * df.height,
            area >= 1,
            need <= pos@.len(),
            acc@.len() <= need,
            budget <= budget0,
            full == sample_rec(ws, width, need as nat, budget0, seed),
            full.0 == acc@ + sample_rec(
                ws,
                width,
                (need - acc@.len()) as nat,
                budget as nat,
                s,
            ).0,
            full.1 == sample_rec(ws, width, (need - acc@.len()) as nat, budget as nat, s).1,
        decreases budget,
    {
        let ghost need_rem = (need - acc@.len()) as nat;
        let ghost s_in = s;
        let ghost b_in = budget as nat;
        let s1 = rng_next(s);
        let idx64 = rng_below(s1, area as u64);
        let idx = idx64 as usize;
        let s2 = rng_next(s1);
        let t = rng_below(s2, 256);
        proof {
            assert(sample_rec(ws, width, need_rem, b_in, s_in) == (
                if ws[idx as int] > t {
                    let rest = sample_rec(ws, width, (need_rem - 1) as nat, (b_in - 1) as nat, s2);
                    (seq![point_at_index(idx as int, width as int)] + rest.0, rest.1)
                } else {
                    sample_rec(ws, width, need_rem, (b_in - 1) as nat, s2)
                }
            ));
        }
        if df.weights[idx] > t as u8 {
            let ghost acc_before = acc@;
            let p = point_from_index(idx, df.width, df.height);
            acc.push(p);
            proof {
                let rest = sample_rec(ws, width, (need_rem - 1) as nat, (b_in - 1) as nat, s2);
                assert((acc_before + (seq![p] + rest.0)) =~= (acc_before.push(p) + rest.0));
                assert(full.0 == acc@ + rest.0);
            }
        }
        s = s2;
        budget = budget - 1;
    }
    proof {
        assert(sample_rec(ws, width, (need - acc@.len()) as nat, budget as nat, s).0
            =~= Seq::<Point>::empty());
        assert(full.0 =~= acc@ + Seq::<Point>::empty());
        assert(full.0 =~= acc@);
        assert(full.1 == s);
        lemma_sample_rec_props(ws, width, height, need as nat, budget0, seed);
        reveal(initial_points);
        assert(initial_points(ws, width, n as nat, seed) == acc@ + fallback_rec(
            ws,
            width,
            (need - acc@.len()) as nat,
            s,
        ));
    }
    let pc: usize = pos.len();
    while acc.len() < need
        invariant
            df.wf(),
            ws == df.weights@,
            width == df.width as nat,
            height == df.height as nat,
            df.width >= 1,
            df.height >= 1,
            pc == pos@.len(),
            pos@.len() == pos_indices(ws).len(),
            forall|k: int| 0 <= k < pos@.len() ==> #[trigger] pos@[k] as int == pos_indices(ws)[k],
            pc > 0,
            need <= pos@.len(),
            acc@.len() <= need,
            initial_points(ws, width, n as nat, seed) == acc@ + fallback_rec(
                ws,
                width,
                (need - acc@.len()) as nat,
                s,
            ),
            need == min(n as int, pos_count(ws) as int),
        decreases need - acc@.len(),
    {
        let ghost need_rem = (need - acc@.len()) as nat;
        let ghost s_in = s;
        let s1 = rng_next(s);
        let j64 = rng_below(s1, pc as u64);
        let j = j64 as usize;
        proof {
            lemma_pos_indices_valid(ws);
            assert(pos@[j as int] as int == pos_indices(ws)[j as int]);
            assert(0 <= pos_indices(ws)[j as int] < ws.len());
            assert(fallback_rec(ws, width, need_rem, s_in) == seq![
                point_at_index(pos_indices(ws)[j as int], width as int),
            ] + fallback_rec(ws, width, (need_rem - 1) as nat, s1));
        }
        let pidx: usize = pos[j];
        let ghost acc_before = acc@;
        let p = point_from_index(pidx, df.width, df.height);
        acc.push(p);
        s = s1;
        proof {
            let rest = fallback_rec(ws, width, (need_rem - 1) as nat, s1);
            assert((acc_before + (seq![p] + rest)) =~= (acc_before.push(p) + rest));
            assert(initial_points(ws, width, n as nat, seed) == acc@ + rest);
        }
    }
    proof {
        assert(fallback_rec(ws, width, 0, s) =~= Seq::<Point>::empty());
        assert(initial_points(ws, width, n as nat, seed) =~= acc@);
    }
    acc
}

} // verus!
