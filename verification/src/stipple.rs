//! The stippling engine's entry point: sample initial points biased by the
//! density field, relax them for the requested number of passes, then extract
//! each point's radius (its cell's weight mass — a monotonically increasing
//! function of the mass, reported unnormalized so the caller can scale by the
//! maximum) and its color (the color field sample at the point's nearest
//! pixel).

use vstd::prelude::*;
use vstd::math::min;
use vstd::arithmetic::div_mod::lemma_multiply_divide_lt;
use crate::point::{Point, PointColor, points_in_bounds};
use crate::field::{
    ColorField, DensityField, collect_positive, lemma_pos_count_positive, pos_count, pos_indices,
};
use crate::sampler::{initial_points, lemma_initial_points_props, sample_initial};
use crate::relax::{relax_n, relax_once};
use crate::assign::{CellSum, cell_accs, compute_cells};
use crate::FP_SCALE;

verus! {

/// A failure of the engine, reported synchronously; no partial result is
/// produced.
#[derive(Clone, Copy, PartialEq, Eq, Structural, Debug)]
pub enum StippleError {
    /// The density and color fields disagree in size, or the raster has zero
    /// area.
    InvalidInput,
    /// The density field has no strictly positive weight, so density-biased
    /// sampling is undefined.
    DegenerateDensity,
}

/// The final, index-aligned triple: one position, radius and color per
/// stipple dot. Radii are cell weight masses (non-negative, unnormalized);
/// the caller divides by the maximum before visual scaling.
#[derive(Debug)]
pub struct StippleResult {
    pub points: Vec<Point>,
    pub radii: Vec<u64>,
    pub colors: Vec<PointColor>,
}

/// The engine's final point set: the seeded initial sample, relaxed for the
/// requested number of passes.
pub open spec fn stipple_points(
    ws: Seq<u8>,
    width: nat,
    height: nat,
    n: nat,
    seed: u64,
    iterations: nat,
) -> Seq<Point> {
    relax_n(ws, width, height, initial_points(ws, width, n, seed), iterations)
}

/// The raster pixel nearest to a fixed-point coordinate.
pub open spec fn nearest_pixel(c: u32) -> int {
    (c + FP_SCALE / 2) as int / FP_SCALE as int
}

/// Row-major index of the pixel a point's color is sampled at.
pub open spec fn color_index(p: Point, width: int) -> int {
    nearest_pixel(p.y) * width + nearest_pixel(p.x)
}

/// Relaxing an empty point set leaves it empty.
pub proof fn lemma_relax_n_empty(ws: Seq<u8>, width: nat, height: nat, n: nat)
    ensures
        relax_n(ws, width, height, Seq::<Point>::empty(), n) =~= Seq::<Point>::empty(),
    decreases n,
{
    if n > 0 {
        lemma_relax_n_empty(ws, width, height, (n - 1) as nat);
        assert(relax_once(ws, width, height, Seq::<Point>::empty()).len() == 0);
    }
}

/// Copies each cell's weight mass out as the point's radius.
fn extract_radii(accs: &Vec<CellSum>) -> (radii: Vec<u64>)
    ensures
        radii@.len() == accs@.len(),
        forall|i: int| 0 <= i < accs@.len() ==> radii@[i] == (#[trigger] accs@[i]).w,
{
    let mut radii: Vec<u64> = Vec::new();
    let mut i: usize = 0;
    while i < accs.len()
        invariant
            i <= accs@.len(),
            radii@.len() == i,
            forall|k: int| 0 <= k < i ==> radii@[k] == (#[trigger] accs@[k]).w,
        decreases accs@.len() - i,
    {
        radii.push(accs[i].w);
        i = i + 1;
    }
    radii
}

/// Samples the color field at each point's nearest pixel.
fn extract_colors(pts: &Vec<Point>, cf: &ColorField) -> (cols: Vec<PointColor>)
    requires
        cf.wf(),
        cf.width >= 1,
        cf.height >= 1,
        points_in_bounds(pts@, cf.width as int, cf.height as int),
    ensures
        cols@.len() == pts@.len(),
        forall|i: int|
            0 <= i < pts@.len() ==> cols@[i] == cf.pixels@[color_index(
                #[trigger] pts@[i],
                cf.width as int,
            )],
{
    let mut cols: Vec<PointColor> = Vec::new();
    let mut i: usize = 0;
    while i < pts.len()
        invariant
            cf.wf(),
            cf.width >= 1,
            cf.height >= 1,
            points_in_bounds(pts@, cf.width as int, cf.height as int),
            i <= pts@.len(),
            cols@.len() == i,
            forall|k: int|
                0 <= k < i ==> cols@[k] == cf.pixels@[color_index(
                    #[trigger] pts@[k],
                    cf.width as int,
                )],
        decreases pts@.len() - i,
    {
        let p = pts[i];
        proof {
            assert(crate::point::point_in_bounds(pts@[i as int], cf.width as int, cf.height as int));
            assert(p.x + 128 < 256 * (cf.width as int));
            lemma_multiply_divide_lt(p.x as int + 128, 256, cf.width as int);
            assert(p.y + 128 < 256 * (cf.height as int));
            lemma_multiply_divide_lt(p.y as int + 128, 256, cf.height as int);
        }
        let cpx: u32 = (p.x + FP_SCALE / 2) / FP_SCALE;
        let cpy: u32 = (p.y + FP_SCALE / 2) / FP_SCALE;
        proof {
            assert(cpx as int == nearest_pixel(p.x));
            assert(cpy as int == nearest_pixel(p.y));
            assert((cpy as int) * (cf.width as int) + (cpx as int) < cf.width * cf.height
                && (cpy as int) * (cf.width as int) >= 0 && cf.width * cf.height <= 0x4000_0000)
                by (nonlinear_arith)
                requires
                    0 <= (cpx as int) && (cpx as int) < (cf.width as int),
                    0 <= (cpy as int) && (cpy as int) < (cf.height as int),
                    1 <= cf.width <= 32768,
                    1 <= cf.height <= 32768,
            ;
        }
        let idx: usize = (cpy as usize) * cf.width + (cpx as usize);
        cols.push(cf.pixels[idx]);
        i = i + 1;
    }
    cols
}

/// Samples the initial points and relaxes them for the requested number of
/// passes.
fn stipple_positions(
    density: &DensityField,
    pos: &Vec<usize>,
    num_points: usize,
    seed: u64,
    iterations: usize,
) -> (pts: Vec<Point>)
    requires
        density.wf(),
        density.width >= 1,
        density.height >= 1,
        pos@.len() == pos_indices(density.weights@).len(),
        forall|k: int|
            0 <= k < pos@.len() ==> #[trigger] pos@[k] as int == pos_indices(density.weights@)[k],
        pos@.len() > 0,
        num_points >= 1,
    ensures
        pts@ == stipple_points(
            density.weights@,
            density.width as nat,
            density.height as nat,
            num_points as nat,
            seed,
            iterations as nat,
        ),
        pts@.len() == min(num_points as int, pos_count(density.weights@) as int),
        pts@.len() >= 1,
        iterations == 0 ==> pts@ == initial_points(
            density.weights@,
            density.width as nat,
            num_points as nat,
            seed,
        ),
        points_in_bounds(pts@, density.width as int, density.height as int),
{
    let ghost ws = density.weights@;
    let ghost width = density.width as nat;
    let ghost height = density.height as nat;
    proof {
        lemma_initial_points_props(ws, width, height, num_points as nat, seed);
    }
    let init = sample_initial(density, pos, num_points, seed);
    proof {
        assert(init@.len() == min(num_points as int, pos_count(ws) as int));
        assert(init@.len() >= 1);
    }
    crate::relax::relax_exec(init, density, iterations)
}

/// Runs the pipeline on checked inputs: sample, relax, extract attributes.
#[verifier::rlimit(100)]
fn stipple_core(
    density: &DensityField,
    color: &ColorField,
    pos: &Vec<usize>,
    num_points: usize,
    seed: u64,
    iterations: usize,
) -> (res: StippleResult)
    requires
        density.wf(),
        color.wf(),
        density.width == color.width,
        density.height == color.height,
        density.width >= 1,
        density.height >= 1,
        pos@.len() == pos_indices(density.weights@).len(),
        forall|k: int|
            0 <= k < pos@.len() ==> #[trigger] pos@[k] as int == pos_indices(density.weights@)[k],
        pos@.len() > 0,
        num_points >= 1,
    ensures
        res.points@ == stipple_points(
            density.weights@,
            density.width as nat,
            density.height as nat,
            num_points as nat,
            seed,
            iterations as nat,
        ),
        res.points@.len() == min(num_points as int, pos_count(density.weights@) as int),
        res.radii@.len() == res.points@.len(),
        res.colors@.len() == res.points@.len(),
        iterations == 0 ==> res.points@ == initial_points(
            density.weights@,
            density.width as nat,
            num_points as nat,
            seed,
        ),
        points_in_bounds(res.points@, density.width as int, density.height as int),
        forall|i: int|
            0 <= i < res.points@.len() ==> (#[trigger] res.radii@[i]) as int == cell_accs(
                res.points@,
                density.weights@,
                density.width as nat,
                density.height as nat,
            )[i].w,
        forall|i: int|
            0 <= i < res.points@.len() ==> res.colors@[i] == color.pixels@[color_index(
                #[trigger] res.points@[i],
                density.width as int,
            )],
{
    let pts = stipple_positions(density, pos, num_points, seed, iterations);
    let accs = compute_cells(&pts, density);
    proof {
        crate::assign::lemma_accs_bounds(
            pts@,
            density.weights@,
            density.width as nat,
            density.height as nat,
            (density.width as nat) * (density.height as nat),
        );
    }
    let radii = extract_radii(&accs);
    let cols = extract_colors(&pts, color);
    proof {
        assert forall|i: int| 0 <= i < pts@.len() implies (#[trigger] radii@[i]) as int
            == cell_accs(
            pts@,
            density.weights@,
            density.width as nat,
            density.height as nat,
        )[i].w by {
            assert(radii@[i] == accs@[i].w);
        }
    }
    StippleResult { points: pts, radii, colors: cols }
}

/// Generates the stipple point set for a density field and a color source of
/// identical dimensions.
///
/// The result is a deterministic function of the inputs: the contract pins
/// every output sequence to a spec-level model of the pipeline, so two calls
/// with equal inputs return identical results. The three output sequences
/// are index-aligned and of equal length `min(num_points, positive pixels)`;
/// with `iterations == 0` the points are exactly the initial sample. Every
/// returned coordinate lies inside the raster, every radius (being a cell's
/// weight mass) is non-negative, and every color channel is a byte.
#[verifier::rlimit(100)]
pub fn generate_stippling(
    density: &DensityField,
    color: &ColorField,
    num_points: usize,
    seed: u64,
    iterations: usize,
) -> (r: Result<StippleResult, StippleError>)
    requires
        density.wf(),
        color.wf(),
    ensures
        match r {
            Ok(res) => {
                let ws = density.weights@;
                let width = density.width as nat;
                let height = density.height as nat;
                &&& density.width == color.width
                &&& density.height == color.height
                &&& density.width >= 1
                &&& density.height >= 1
                &&& pos_count(ws) > 0
                &&& res.points@ == stipple_points(
                    ws,
                    width,
                    height,
                    num_points as nat,
                    seed,
                    iterations as nat,
                )
                &&& res.points@.len() == min(num_points as int, pos_count(ws) as int)
                &&& res.radii@.len() == res.points@.len()
                &&& res.colors@.len() == res.points@.len()
                &&& (iterations == 0 ==> res.points@ == initial_points(
                    ws,
                    width,
                    num_points as nat,
                    seed,
                ))
                &&& points_in_bounds(res.points@, density.width as int, density.height as int)
                &&& (forall|i: int|
                    0 <= i < res.points@.len() ==> (#[trigger] res.radii@[i]) as int == cell_accs(
                        res.points@,
                        ws,
                        width,
                        height,
                    )[i].w)
                &&& (forall|i: int|
                    0 <= i < res.points@.len() ==> res.colors@[i] == color.pixels@[color_index(
                        #[trigger] res.points@[i],
                        density.width as int,
                    )])
            },
            Err(e) => match e {
                StippleError::InvalidInput => !(density.width == color.width && density.height
                    == color.height && density.width >= 1 && density.height >= 1),
                StippleError::DegenerateDensity => {
                    &&& density.width == color.width
                    &&& density.height == color.height
                    &&& density.width >= 1
                    &&& density.height >= 1
                    &&& pos_count(density.weights@) == 0
                },
            },
        },
{
    let ghost ws = density.weights@;
    let ghost width = density.width as nat;
    let ghost height = density.height as nat;
    if density.width != color.width || density.height != color.height {
        return Err(StippleError::InvalidInput);
    }
    if density.width == 0 || density.height == 0 {
        return Err(StippleError::InvalidInput);
    }
    let pos = collect_positive(&density.weights);
    proof {
        lemma_pos_count_positive(ws);
    }
    if pos.len() == 0 {
        return Err(StippleError::DegenerateDensity);
    }
    if num_points == 0 {
        proof {
            lemma_initial_points_props(ws, width, height, 0, seed);
            assert(initial_points(ws, width, 0, seed) =~= Seq::<Point>::empty());
            lemma_relax_n_empty(ws, width, height, iterations as nat);
        }
        return Ok(
            StippleResult { points: Vec::new(), radii: Vec::new(), colors: Vec::new() },
        );
    }
    Ok(stipple_core(density, color, &pos, num_points, seed, iterations))
}

} // verus!
