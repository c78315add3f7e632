//! The engine's global guarantees: determinism of the whole pipeline, the
//! monotone decrease of the within-cell weighted cost under relaxation, and
//! the convergence of a single point onto a raster's only weighted pixel.

use vstd::prelude::*;
use vstd::arithmetic::div_mod::lemma_fundamental_div_mod;
use crate::point::{Point, points_in_bounds};
use crate::assign::{
    CellAcc, accs_upto, cell_accs, dist_sq, nearest, lemma_nearest, lemma_accs_bounds,
    lemma_accs_len,
};
use crate::relax::{move_points, relax_n, relax_once, rnd_div, lemma_rnd_div_range};
use crate::stipple::stipple_points;
use crate::FP_SCALE;

verus! {

/// Determinism: the stipple outputs are functions of the inputs alone. Two
/// point sequences that both satisfy the engine's contract for equal inputs
/// are identical, and with them the radii and colors, which the contract pins
/// to the points and the two fields.
pub proof fn lemma_deterministic(
    ws: Seq<u8>,
    width: nat,
    height: nat,
    n: nat,
    seed: u64,
    iterations: nat,
    pts1: Seq<Point>,
    pts2: Seq<Point>,
)
    requires
        pts1 == stipple_points(ws, width, height, n, seed, iterations),
        pts2 == stipple_points(ws, width, height, n, seed, iterations),
    ensures
        pts1 == pts2,
{
}

/// Weighted cost of the first `k` pixels: each pixel contributes its weight
/// times its squared distance to the point it is assigned to. The assignment
/// is the nearest point of `assign_pts`; the distance is measured to the
/// corresponding point of `eval_pts`, so that assignment and movement can be
/// compared separately.
pub open spec fn cost_upto(
    assign_pts: Seq<Point>,
    eval_pts: Seq<Point>,
    ws: Seq<u8>,
    width: nat,
    k: nat,
) -> int
    recommends
        width > 0,
        assign_pts.len() >= 1,
        eval_pts.len() == assign_pts.len(),
        k <= ws.len(),
    decreases k,
{
    if k == 0 {
        0
    } else {
        let px = (k - 1) as int % width as int;
        let py = (k - 1) as int / width as int;
        let i = nearest(assign_pts, px * FP_SCALE, py * FP_SCALE);
        cost_upto(assign_pts, eval_pts, ws, width, (k - 1) as nat) + ws[k - 1] * dist_sq(
            eval_pts[i],
            px * FP_SCALE,
            py * FP_SCALE,
        )
    }
}

/// Total within-cell weighted cost of a point configuration: the sum over all
/// pixels of `weight * squared distance to the nearest point`.
pub open spec fn config_cost(ws: Seq<u8>, width: nat, height: nat, pts: Seq<Point>) -> int {
    cost_upto(pts, pts, ws, width, width * height)
}

/// Re-assigning every pixel to its nearest point does not increase the cost:
/// evaluating against the points of `pts` under their own nearest assignment
/// costs no more than under any older assignment.
pub proof fn lemma_reassign_nonincreasing(
    old_pts: Seq<Point>,
    new_pts: Seq<Point>,
    ws: Seq<u8>,
    width: nat,
    k: nat,
)
    requires
        width > 0,
        old_pts.len() >= 1,
        new_pts.len() == old_pts.len(),
        k <= ws.len(),
    ensures
        cost_upto(new_pts, new_pts, ws, width, k) <= cost_upto(old_pts, new_pts, ws, width, k),
    decreases k,
{
    if k > 0 {
        lemma_reassign_nonincreasing(old_pts, new_pts, ws, width, (k - 1) as nat);
        let px = (k - 1) as int % width as int;
        let py = (k - 1) as int / width as int;
        let i_new = nearest(new_pts, px * FP_SCALE, py * FP_SCALE);
        let i_old = nearest(old_pts, px * FP_SCALE, py * FP_SCALE);
        lemma_nearest(new_pts, px * FP_SCALE, py * FP_SCALE);
        lemma_nearest(old_pts, px * FP_SCALE, py * FP_SCALE);
        let d_new = dist_sq(new_pts[i_new], px * FP_SCALE, py * FP_SCALE);
        let d_old = dist_sq(new_pts[i_old], px * FP_SCALE, py * FP_SCALE);
        assert(d_new <= d_old);
        assert(ws[k - 1] * d_new <= ws[k - 1] * d_old) by (nonlinear_arith)
            requires
                d_new <= d_old,
                ws[k - 1] >= 0,
        ;
    }
}

/// Sum of a sequence of integers.
pub open spec fn seq_sum(s: Seq<int>) -> int
    decreases s.len(),
{
    if s.len() == 0 {
        0
    } else {
        seq_sum(s.drop_last()) + s.last()
    }
}

/// Adding `d` to one element adds `d` to the sum.
pub proof fn lemma_seq_sum_update(s: Seq<int>, j: int, d: int)
    requires
        0 <= j < s.len(),
    ensures
        seq_sum(s.update(j, s[j] + d)) == seq_sum(s) + d,
    decreases s.len(),
{
    let s2 = s.update(j, s[j] + d);
    if j == s.len() - 1 {
        assert(s2.drop_last() =~= s.drop_last());
        assert(s2.last() == s.last() + d);
    } else {
        assert(s2.drop_last() =~= s.drop_last().update(j, s.drop_last()[j] + d));
        lemma_seq_sum_update(s.drop_last(), j, d);
        assert(s2.last() == s.last());
    }
}

/// A sum of nonpositive values is nonpositive.
pub proof fn lemma_seq_sum_nonpos(s: Seq<int>)
    requires
        forall|i: int| 0 <= i < s.len() ==> s[i] <= 0,
    ensures
        seq_sum(s) <= 0,
    decreases s.len(),
{
    if s.len() > 0 {
        lemma_seq_sum_nonpos(s.drop_last());
    }
}

/// A sum of zeros is zero.
pub proof fn lemma_seq_sum_zero(s: Seq<int>)
    requires
        forall|i: int| 0 <= i < s.len() ==> s[i] == 0,
    ensures
        seq_sum(s) == 0,
    decreases s.len(),
{
    if s.len() > 0 {
        lemma_seq_sum_zero(s.drop_last());
    }
}

/// How much more a cell's pixels cost against position `np` than against
/// position `op`, given the cell's accumulated sums: expanding the squared
/// distances, the per-pixel quadratic terms cancel and only the accumulators
/// remain.
pub open spec fn cell_cost_shift(np: Point, op: Point, a: CellAcc) -> int {
    (np.x * np.x - op.x * op.x + np.y * np.y - op.y * op.y) * a.w - 2 * (np.x - op.x) * (a.sx
        * FP_SCALE) - 2 * (np.y - op.y) * (a.sy * FP_SCALE)
}

/// The per-cell cost shifts of a new configuration against an old one.
pub open spec fn cost_shifts(new_pts: Seq<Point>, old_pts: Seq<Point>, accs: Seq<CellAcc>) -> Seq<
    int,
>
    recommends
        new_pts.len() == old_pts.len(),
        accs.len() == old_pts.len(),
{
    Seq::new(old_pts.len(), |i: int| cell_cost_shift(new_pts[i], old_pts[i], accs[i]))
}

/// Telescoping identity: over the first `k` pixels, evaluating the old
/// assignment against the new positions costs exactly the total of the
/// per-cell shifts more than evaluating it against the old positions.
pub proof fn lemma_cost_shift_identity(
    old_pts: Seq<Point>,
    new_pts: Seq<Point>,
    ws: Seq<u8>,
    width: nat,
    k: nat,
)
    requires
        width > 0,
        old_pts.len() >= 1,
        new_pts.len() == old_pts.len(),
        k <= ws.len(),
    ensures
        cost_upto(old_pts, new_pts, ws, width, k) - cost_upto(old_pts, old_pts, ws, width, k)
            == seq_sum(cost_shifts(new_pts, old_pts, accs_upto(old_pts, ws, width, k))),
    decreases k,
{
    lemma_accs_len(old_pts, ws, width, k);
    if k == 0 {
        let shifts = cost_shifts(new_pts, old_pts, accs_upto(old_pts, ws, width, 0));
        assert forall|i: int| 0 <= i < shifts.len() implies shifts[i] == 0 by {
            let np = new_pts[i];
            let op = old_pts[i];
            assert((np.x * np.x - op.x * op.x + np.y * np.y - op.y * op.y) * 0 - 2 * (np.x - op.x)
                * (0 * FP_SCALE) - 2 * (np.y - op.y) * (0 * FP_SCALE) == 0) by (nonlinear_arith);
        }
        lemma_seq_sum_zero(shifts);
    } else {
        lemma_cost_shift_identity(old_pts, new_pts, ws, width, (k - 1) as nat);
        lemma_accs_len(old_pts, ws, width, (k - 1) as nat);
        let px = (k - 1) as int % width as int;
        let py = (k - 1) as int / width as int;
        let qx = px * FP_SCALE;
        let qy = py * FP_SCALE;
        let j = nearest(old_pts, qx, qy);
        lemma_nearest(old_pts, qx, qy);
        let prev = accs_upto(old_pts, ws, width, (k - 1) as nat);
        let a = prev[j];
        let w = ws[k - 1] as int;
        let a2 = CellAcc { w: a.w + w, sx: a.sx + w * px, sy: a.sy + w * py };
        assert(accs_upto(old_pts, ws, width, k) == prev.update(j, a2));
        let np = new_pts[j];
        let op = old_pts[j];
        let delta = cell_cost_shift(np, op, a2) - cell_cost_shift(np, op, a);
        assert(cost_shifts(new_pts, old_pts, prev.update(j, a2)) =~= cost_shifts(
            new_pts,
            old_pts,
            prev,
        ).update(j, cost_shifts(new_pts, old_pts, prev)[j] + delta));
        lemma_seq_sum_update(cost_shifts(new_pts, old_pts, prev), j, delta);
        let nx = np.x as int;
        let ny = np.y as int;
        let ox = op.x as int;
        let oy = op.y as int;
        let base = nx * nx - ox * ox + ny * ny - oy * oy;
        assert(delta == (base * (a.w + w) - 2 * (nx - ox) * ((a.sx + w * px) * 256) - 2 * (ny - oy)
            * ((a.sy + w * py) * 256)) - (base * a.w - 2 * (nx - ox) * (a.sx * 256) - 2 * (ny - oy)
            * (a.sy * 256)));
        assert(delta == base * w - 2 * (nx - ox) * ((w * px) * 256) - 2 * (ny - oy) * ((w * py)
            * 256)) by (nonlinear_arith)
            requires
                delta == (base * (a.w + w) - 2 * (nx - ox) * ((a.sx + w * px) * 256) - 2 * (ny - oy)
                    * ((a.sy + w * py) * 256)) - (base * a.w - 2 * (nx - ox) * (a.sx * 256) - 2 * (
                ny - oy) * (a.sy * 256)),
        ;
        assert((nx * nx - ox * ox) * w - 2 * (nx - ox) * ((w * px) * 256) == w * ((nx - qx) * (nx
            - qx)) - w * ((ox - qx) * (ox - qx))) by (nonlinear_arith)
            requires
                qx == px * 256,
        ;
        assert((ny * ny - oy * oy) * w - 2 * (ny - oy) * ((w * py) * 256) == w * ((ny - qy) * (ny
            - qy)) - w * ((oy - qy) * (oy - qy))) by (nonlinear_arith)
            requires
                qy == py * 256,
        ;
        assert(delta == (w * ((nx - qx) * (nx - qx)) - w * ((ox - qx) * (ox - qx))) + (w * ((ny
            - qy) * (ny - qy)) - w * ((oy - qy) * (oy - qy)))) by (nonlinear_arith)
            requires
                delta == base * w - 2 * (nx - ox) * ((w * px) * 256) - 2 * (ny - oy) * ((w * py)
                    * 256),
                base == nx * nx - ox * ox + ny * ny - oy * oy,
                (nx * nx - ox * ox) * w - 2 * (nx - ox) * ((w * px) * 256) == w * ((nx - qx) * (nx
                    - qx)) - w * ((ox - qx) * (ox - qx)),
                (ny * ny - oy * oy) * w - 2 * (ny - oy) * ((w * py) * 256) == w * ((ny - qy) * (ny
                    - qy)) - w * ((oy - qy) * (oy - qy)),
        ;
        assert(w * dist_sq(np, qx, qy) == w * ((nx - qx) * (nx - qx) + (ny - qy) * (ny - qy)));
        assert(w * ((nx - qx) * (nx - qx) + (ny - qy) * (ny - qy)) == w * ((nx - qx) * (nx - qx))
            + w * ((ny - qy) * (ny - qy))) by (nonlinear_arith);
        assert(w * ((ox - qx) * (ox - qx) + (oy - qy) * (oy - qy)) == w * ((ox - qx) * (ox - qx))
            + w * ((oy - qy) * (oy - qy))) by (nonlinear_arith);
        assert(delta == w * dist_sq(np, qx, qy) - w * dist_sq(op, qx, qy));
    }
}

/// Rounding the weighted mean to the nearest integer minimizes the squared
/// residual of the mean equation over all integers.
pub proof fn lemma_rnd_div_best(s: int, w: int, z: int)
    requires
        w > 0,
    ensures
        (rnd_div(s, w) * w - s) * (rnd_div(s, w) * w - s) <= (z * w - s) * (z * w - s),
{
    let c = rnd_div(s, w);
    lemma_fundamental_div_mod(2 * s + w, 2 * w);
    let r = (2 * s + w) % (2 * w);
    assert(0 <= r < 2 * w);
    assert(2 * s + w == (2 * w) * c + r);
    let u = w - r;
    assert(2 * (c * w - s) == u) by (nonlinear_arith)
        requires
            2 * s + w == (2 * w) * c + r,
            u == w - r,
    ;
    let t = z - c;
    assert(2 * (z * w - s) == 2 * w * t + u) by (nonlinear_arith)
        requires
            2 * (c * w - s) == u,
            t == z - c,
    ;
    assert(u * u <= (2 * w * t + u) * (2 * w * t + u)) by (nonlinear_arith)
        requires
            -w < u <= w,
            w > 0,
            t == z - c,
            (t == 0) ==> (2 * w * t + u == u),
    ;
    assert((2 * (c * w - s)) * (2 * (c * w - s)) <= (2 * (z * w - s)) * (2 * (z * w - s)));
    assert((c * w - s) * (c * w - s) <= (z * w - s) * (z * w - s)) by (nonlinear_arith)
        requires
            (2 * (c * w - s)) * (2 * (c * w - s)) <= (2 * (z * w - s)) * (2 * (z * w - s)),
    ;
}

/// Along one axis, moving to the rounded weighted mean does not increase the
/// cell's cost: the shift term of that axis is nonpositive.
pub proof fn lemma_axis_shift(w: int, sfp: int, o: int, c: int)
    requires
        w > 0,
        c == rnd_div(sfp, w),
    ensures
        (c * c - o * o) * w - 2 * (c - o) * sfp <= 0,
{
    lemma_rnd_div_best(sfp, w, o);
    assert((c * c - o * o) * w - 2 * (c - o) * sfp <= 0) by (nonlinear_arith)
        requires
            (c * w - sfp) * (c * w - sfp) <= (o * w - sfp) * (o * w - sfp),
            w > 0,
    ;
}

/// Centroid convergence: one relaxation pass never increases the total
/// within-cell weighted cost (the sum over all pixels of the pixel's weight
/// times its squared distance to its nearest point). Re-centering each point
/// at its cell's rounded weighted centroid lowers each cell's cost, and
/// re-assigning pixels to the moved points can only lower it further.
pub proof fn lemma_relaxation_cost_nonincreasing(
    ws: Seq<u8>,
    width: nat,
    height: nat,
    pts: Seq<Point>,
)
    requires
        1 <= width <= 32768,
        1 <= height <= 32768,
        ws.len() == width * height,
        pts.len() >= 1,
        points_in_bounds(pts, width as int, height as int),
    ensures
        config_cost(ws, width, height, relax_once(ws, width, height, pts)) <= config_cost(
            ws,
            width,
            height,
            pts,
        ),
{
    let accs = cell_accs(pts, ws, width, height);
    let newp = relax_once(ws, width, height, pts);
    lemma_accs_bounds(pts, ws, width, height, width * height);
    assert(newp.len() == pts.len());
    assert forall|i: int| 0 <= i < pts.len() implies cost_shifts(newp, pts, accs)[i] <= 0 by {
        let a = accs[i];
        let op = pts[i];
        if a.w <= 0 {
            assert(a.w == 0);
            let np = newp[i];
            assert(np == op);
            assert((np.x * np.x - op.x * op.x + np.y * np.y - op.y * op.y) * 0 - 2 * (np.x - op.x)
                * (a.sx * FP_SCALE) - 2 * (np.y - op.y) * (a.sy * FP_SCALE) == 0)
                by (nonlinear_arith)
                requires
                    np == op,
            ;
        } else {
            let cx = rnd_div(a.sx * FP_SCALE, a.w);
            let cy = rnd_div(a.sy * FP_SCALE, a.w);
            assert(a.sx * FP_SCALE <= ((width - 1) * FP_SCALE) * a.w && a.sx * FP_SCALE >= 0)
                by (nonlinear_arith)
                requires
                    0 <= a.sx <= a.w * (width - 1),
                    a.w > 0,
                    width >= 1,
                    FP_SCALE == 256,
            ;
            lemma_rnd_div_range(a.sx * FP_SCALE, a.w, (width - 1) * FP_SCALE);
            assert(a.sy * FP_SCALE <= ((height - 1) * FP_SCALE) * a.w && a.sy * FP_SCALE >= 0)
                by (nonlinear_arith)
                requires
                    0 <= a.sy <= a.w * (height - 1),
                    a.w > 0,
                    height >= 1,
                    FP_SCALE == 256,
            ;
            lemma_rnd_div_range(a.sy * FP_SCALE, a.w, (height - 1) * FP_SCALE);
            let np = newp[i];
            assert(np.x as int == cx && np.y as int == cy);
            lemma_axis_shift(a.w, a.sx * FP_SCALE, op.x as int, cx);
            lemma_axis_shift(a.w, a.sy * FP_SCALE, op.y as int, cy);
            assert(cell_cost_shift(np, op, a) == ((cx * cx - op.x * op.x) * a.w - 2 * (cx - op.x)
                * (a.sx * FP_SCALE)) + ((cy * cy - op.y * op.y) * a.w - 2 * (cy - op.y) * (a.sy
                * FP_SCALE))) by (nonlinear_arith)
                requires
                    np.x as int == cx,
                    np.y as int == cy,
                    cell_cost_shift(np, op, a) == (np.x * np.x - op.x * op.x + np.y * np.y - op.y
                        * op.y) * a.w - 2 * (np.x - op.x) * (a.sx * FP_SCALE) - 2 * (np.y - op.y)
                        * (a.sy * FP_SCALE),
            ;
        }
    }
    lemma_seq_sum_nonpos(cost_shifts(newp, pts, accs));
    lemma_cost_shift_identity(pts, newp, ws, width, width * height);
    lemma_reassign_nonincreasing(pts, newp, ws, width, width * height);
}

/// On a 2 by 2 raster whose only positive weight sits at the origin pixel,
/// one requested point with one relaxation pass lands exactly on that pixel,
/// whatever the seed: the initial sample can only stand on the positive
/// pixel, and the pass moves the point to its cell's centroid, which is that
/// pixel again.
pub proof fn lemma_single_heavy_pixel(ws: Seq<u8>, seed: u64)
    requires
        ws.len() == 4,
        ws[0] > 0,
        ws[1] == 0,
        ws[2] == 0,
        ws[3] == 0,
    ensures
        stipple_points(ws, 2, 2, 1, seed, 1) == seq![Point { x: 0, y: 0 }],
{
    let origin = Point { x: 0, y: 0 };
    // the positive-pixel list is exactly the origin pixel
    let s3 = ws.drop_last();
    let s2 = s3.drop_last();
    let s1 = s2.drop_last();
    let s0 = s1.drop_last();
    assert(crate::field::pos_indices(s0) =~= Seq::<int>::empty());
    assert(crate::field::pos_indices(s1) =~= seq![0int]);
    assert(crate::field::pos_indices(s2) =~= seq![0int]);
    assert(crate::field::pos_indices(s3) =~= seq![0int]);
    assert(crate::field::pos_indices(ws) =~= seq![0int]);
    assert(crate::field::pos_count(ws) == 1);
    // the initial sample is one point on a positive pixel: the origin
    crate::sampler::lemma_initial_points_props(ws, 2, 2, 1, seed);
    let init = crate::sampler::initial_points(ws, 2, 1, seed);
    assert(init.len() == 1);
    assert(crate::sampler::at_positive_pixel(init[0], ws, 2));
    let idx = choose|idx: int|
        0 <= idx < ws.len() && ws[idx] > 0 && init[0] == crate::sampler::point_at_index(idx, 2);
    assert(idx == 0);
    assert(init[0] == origin);
    assert(init =~= seq![origin]);
    // one pass: every pixel joins the single cell, whose weighted centroid is
    // the origin because only the origin pixel carries weight
    let accs0 = accs_upto(init, ws, 2, 0);
    assert(accs0 == crate::assign::init_accs(init.len()));
    assert(accs0.len() == 1 && accs0[0].w == 0 && accs0[0].sx == 0 && accs0[0].sy == 0);
    let accs1 = accs_upto(init, ws, 2, 1);
    assert(accs1 == accs0.update(
        nearest(init, ((1 - 1) as int % 2) * FP_SCALE, ((1 - 1) as int / 2) * FP_SCALE),
        CellAcc {
            w: accs0[0].w + ws[0],
            sx: accs0[0].sx + ws[0] * ((1 - 1) as int % 2),
            sy: accs0[0].sy + ws[0] * ((1 - 1) as int / 2),
        },
    ));
    let accs2 = accs_upto(init, ws, 2, 2);
    let accs3 = accs_upto(init, ws, 2, 3);
    let accs4 = accs_upto(init, ws, 2, 4);
    assert(nearest(init, 0, 0) == 0 && nearest(init, 256, 0) == 0 && nearest(init, 0, 256) == 0
        && nearest(init, 256, 256) == 0);
    assert(accs1[0].w == ws[0] && accs1[0].sx == 0 && accs1[0].sy == 0);
    assert(accs2[0].w == ws[0] && accs2[0].sx == 0 && accs2[0].sy == 0);
    assert(accs3[0].w == ws[0] && accs3[0].sx == 0 && accs3[0].sy == 0);
    assert(accs4[0].w == ws[0] && accs4[0].sx == 0 && accs4[0].sy == 0);
    assert(cell_accs(init, ws, 2, 2) == accs4);
    assert(rnd_div(0, ws[0] as int) == 0) by {
        vstd::arithmetic::div_mod::lemma_basic_div(ws[0] as int, 2 * ws[0] as int);
    }
    let moved = move_points(init, accs4);
    assert(moved[0] == origin);
    assert(moved =~= seq![origin]);
    assert(relax_n(ws, 2, 2, init, 0) == init);
    assert(stipple_points(ws, 2, 2, 1, seed, 1) == relax_once(ws, 2, 2, init));
}

} // verus!
