//! The two input grids: a density field of per-pixel weights and a color
//! field of per-pixel RGB values, both stored row-major.
//!
//! A weight is a byte in `0 ..= 255`; `0` means the pixel can never receive a
//! stipple point, and larger weights attract points more strongly.

use vstd::prelude::*;
use crate::point::PointColor;

verus! {

/// Largest accepted side length of a raster, so that all per-pass
/// accumulators provably fit in 64-bit integers.
pub const MAX_DIM: usize = 32768;

/// A read-only grid of per-pixel weights, row-major: the weight of pixel
/// `(x, y)` is `weights[y * width + x]`.
pub struct DensityField {
    pub width: usize,
    pub height: usize,
    pub weights: Vec<u8>,
}

/// A read-only grid of per-pixel colors, row-major, with the same indexing as
/// the density field it accompanies.
pub struct ColorField {
    pub width: usize,
    pub height: usize,
    pub pixels: Vec<PointColor>,
}

impl DensityField {
    /// The stored grid matches its dimensions and both sides are small enough
    /// for the engine's accumulators.
    pub open spec fn wf(&self) -> bool {
        &&& self.width <= MAX_DIM
        &&& self.height <= MAX_DIM
        &&& self.weights@.len() == self.width * self.height
    }

    /// Builds a density field, rejecting a weight grid whose length does not
    /// match the dimensions and dimensions beyond `MAX_DIM`.
    pub fn new(width: usize, height: usize, weights: Vec<u8>) -> (r: Option<DensityField>)
        ensures
            match r {
                Some(df) => {
                    &&& df.wf()
                    &&& df.width == width
                    &&& df.height == height
                    &&& df.weights@ == weights@
                },
                None => !(width <= MAX_DIM && height <= MAX_DIM && weights@.len() == width
                    * height),
            },
    {
        if width > MAX_DIM || height > MAX_DIM {
            return None;
        }
        proof {
            assert(width * height <= 0x4000_0000) by (nonlinear_arith)
                requires
                    width <= 32768,
                    height <= 32768,
            ;
        }
        if weights.len() != width * height {
            return None;
        }
        Some(DensityField { width, height, weights })
    }
}

impl ColorField {
    /// The stored grid matches its dimensions and both sides are small enough
    /// for the engine's accumulators.
    pub open spec fn wf(&self) -> bool {
        &&& self.width <= MAX_DIM
        &&& self.height <= MAX_DIM
        &&& self.pixels@.len() == self.width * self.height
    }

    /// Builds a color field, rejecting a pixel grid whose length does not
    /// match the dimensions and dimensions beyond `MAX_DIM`.
    pub fn new(width: usize, height: usize, pixels: Vec<PointColor>) -> (r: Option<ColorField>)
        ensures
            match r {
                Some(cf) => {
                    &&& cf.wf()
                    &&& cf.width == width
                    &&& cf.height == height
                    &&& cf.pixels@ == pixels@
                },
                None => !(width <= MAX_DIM && height <= MAX_DIM && pixels@.len() == width
                    * height),
            },
    {
        if width > MAX_DIM || height > MAX_DIM {
            return None;
        }
        proof {
            assert(width * height <= 0x4000_0000) by (nonlinear_arith)
                requires
                    width <= 32768,
                    height <= 32768,
            ;
        }
        if pixels.len() != width * height {
            return None;
        }
        Some(ColorField { width, height, pixels })
    }
}

/// The pixel indices with a strictly positive weight, in increasing order.
pub open spec fn pos_indices(s: Seq<u8>) -> Seq<int>
    decreases s.len(),
{
    if s.len() == 0 {
        Seq::empty()
    } else if s.last() > 0 {
        pos_indices(s.drop_last()).push(s.len() - 1)
    } else {
        pos_indices(s.drop_last())
    }
}

/// The number of pixels with a strictly positive weight.
pub open spec fn pos_count(s: Seq<u8>) -> nat {
    pos_indices(s).len()
}

/// Each entry of `pos_indices` is a valid pixel index with positive weight.
pub proof fn lemma_pos_indices_valid(s: Seq<u8>)
    ensures
        forall|k: int|
            0 <= k < pos_indices(s).len() ==> {
                &&& 0 <= #[trigger] pos_indices(s)[k] < s.len()
                &&& s[pos_indices(s)[k]] > 0
            },
    decreases s.len(),
{
    if s.len() > 0 {
        lemma_pos_indices_valid(s.drop_last());
        let p = pos_indices(s.drop_last());
        assert forall|k: int| 0 <= k < pos_indices(s).len() implies {
            &&& 0 <= #[trigger] pos_indices(s)[k] < s.len()
            &&& s[pos_indices(s)[k]] > 0
        } by {
            if s.last() > 0 && k == p.len() {
                assert(pos_indices(s)[k] == s.len() - 1);
            } else {
                assert(pos_indices(s)[k] == p[k]);
                assert(s.drop_last()[p[k]] == s[p[k]]);
            }
        }
    }
}

/// A density field with some positive weight has a nonempty positive-index
/// list, and conversely.
pub proof fn lemma_pos_count_positive(s: Seq<u8>)
    ensures
        pos_count(s) > 0 <==> exists|i: int| 0 <= i < s.len() && s[i] > 0,
    decreases s.len(),
{
    if s.len() > 0 {
        lemma_pos_count_positive(s.drop_last());
        if pos_count(s) > 0 {
            if s.last() > 0 {
                assert(s[s.len() - 1] > 0);
            } else {
                let i = choose|i: int| 0 <= i < s.drop_last().len() && s.drop_last()[i] > 0;
                assert(s[i] > 0);
            }
        }
        if exists|i: int| 0 <= i < s.len() && s[i] > 0 {
            let i = choose|i: int| 0 <= i < s.len() && s[i] > 0;
            if i < s.len() - 1 {
                assert(s.drop_last()[i] > 0);
            }
        }
    }
}

/// Collects the indices of the pixels with positive weight, in increasing
/// order; the result realizes `pos_indices` of the weight grid.
pub fn collect_positive(weights: &Vec<u8>) -> (r: Vec<usize>)
    ensures
        r@.len() == pos_indices(weights@).len(),
        forall|k: int| 0 <= k < r@.len() ==> #[trigger] r@[k] as int == pos_indices(weights@)[k],
    {
    let mut r: Vec<usize> = Vec::new();
    let mut i: usize = 0;
    while i < weights.len()
        invariant
            i <= weights.len(),
            r@.len() == pos_indices(weights@.take(i as int)).len(),
            forall|k: int|
                0 <= k < r@.len() ==> #[trigger] r@[k] as int == pos_indices(
                    weights@.take(i as int),
                )[k],
        decreases weights.len() - i,
    {
        proof {
            assert(weights@.take(i + 1).drop_last() =~= weights@.take(i as int));
            assert(weights@.take(i + 1).last() == weights@[i as int]);
        }
        if weights[i] > 0 {
            r.push(i);
        }
        i = i + 1;
    }
    proof {
        assert(weights@.take(weights@.len() as int) =~= weights@);
    }
    r
}

} // verus!
