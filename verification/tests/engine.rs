use stippling::field::{ColorField, DensityField, collect_positive};
use stippling::point::{Point, PointColor};
use stippling::rng::{rng_below, rng_next};
use stippling::sampler::sample_initial;
use stippling::stipple::{StippleError, generate_stippling};
use stippling::FP_SCALE;

fn uniform_density(width: usize, height: usize, w: u8) -> DensityField {
    DensityField::new(width, height, vec![w; width * height]).unwrap()
}

fn uniform_color(width: usize, height: usize, r: u8, g: u8, b: u8) -> ColorField {
    ColorField::new(width, height, vec![PointColor::new(r, g, b); width * height]).unwrap()
}

#[test]
fn determinism_bit_identical() {
    let df = uniform_density(10, 10, 200);
    let cf = uniform_color(10, 10, 10, 20, 30);
    let a = generate_stippling(&df, &cf, 7, 12345, 3).unwrap();
    let b = generate_stippling(&df, &cf, 7, 12345, 3).unwrap();
    assert_eq!(a.points, b.points);
    assert_eq!(a.radii, b.radii);
    assert_eq!(a.colors, b.colors);
}

#[test]
fn count_invariant_full() {
    let df = uniform_density(10, 10, 255);
    let cf = uniform_color(10, 10, 0, 0, 0);
    let res = generate_stippling(&df, &cf, 4, 1, 2).unwrap();
    assert_eq!(res.points.len(), 4);
    assert_eq!(res.radii.len(), 4);
    assert_eq!(res.colors.len(), 4);
}

#[test]
fn count_invariant_capped_by_positive_area() {
    // only three pixels have positive weight, so only three points come back
    let mut w = vec![0u8; 16];
    w[0] = 9;
    w[5] = 9;
    w[10] = 9;
    let df = DensityField::new(4, 4, w).unwrap();
    let cf = uniform_color(4, 4, 1, 2, 3);
    let res = generate_stippling(&df, &cf, 10, 7, 0).unwrap();
    assert_eq!(res.points.len(), 3);
    assert_eq!(res.radii.len(), 3);
    assert_eq!(res.colors.len(), 3);
}

#[test]
fn zero_iterations_identity() {
    let df = uniform_density(8, 6, 128);
    let cf = uniform_color(8, 6, 0, 0, 0);
    let pos = collect_positive(&vec![128u8; 48]);
    let raw = sample_initial(&df, &pos, 5, 99);
    let res = generate_stippling(&df, &cf, 5, 99, 0).unwrap();
    assert_eq!(res.points, raw);
}

#[test]
fn bounds_hold_for_every_output() {
    let mut w = vec![0u8; 144];
    for (i, x) in w.iter_mut().enumerate() {
        *x = (i % 251) as u8;
    }
    let df = DensityField::new(12, 12, w).unwrap();
    let cf = uniform_color(12, 12, 4, 5, 6);
    let res = generate_stippling(&df, &cf, 9, 3, 4).unwrap();
    for p in &res.points {
        assert!(p.x < 12 * FP_SCALE);
        assert!(p.y < 12 * FP_SCALE);
    }
    // radii are u64 weight masses, hence non-negative; color channels are u8
    assert_eq!(res.radii.len(), res.points.len());
}

#[test]
fn scenario_single_heavy_pixel() {
    // 2x2 raster where only pixel (0,0) carries weight: with one point and
    // one relaxation pass, the point must land exactly on (0,0)
    for seed in [0u64, 1, 42, 987654321] {
        let df = DensityField::new(2, 2, vec![255, 0, 0, 0]).unwrap();
        let cf = ColorField::new(
            2,
            2,
            vec![
                PointColor::new(200, 0, 0),
                PointColor::new(0, 1, 0),
                PointColor::new(0, 2, 0),
                PointColor::new(0, 3, 0),
            ],
        )
        .unwrap();
        let res = generate_stippling(&df, &cf, 1, seed, 1).unwrap();
        assert_eq!(res.points, vec![Point::new(0, 0)]);
        // its cell is the whole raster, whose weight mass is 255
        assert_eq!(res.radii, vec![255u64]);
        // the color is sampled at pixel (0,0)
        assert_eq!(res.colors, vec![PointColor::new(200, 0, 0)]);
    }
}

#[test]
fn scenario_uniform_field_spreads_points() {
    // uniform 10x10 density, four points, twenty passes: the points settle
    // into a spread-out configuration; nearest-neighbor distances stay within
    // a factor of two of each other and no two points coincide
    let df = uniform_density(10, 10, 255);
    let cf = uniform_color(10, 10, 0, 0, 0);
    let res = generate_stippling(&df, &cf, 4, 42, 20).unwrap();
    assert_eq!(res.points.len(), 4);
    let mut nearest: Vec<u64> = Vec::new();
    for (i, p) in res.points.iter().enumerate() {
        let mut best: u64 = u64::MAX;
        for (j, q) in res.points.iter().enumerate() {
            if i != j {
                let dx = (p.x as i64 - q.x as i64).unsigned_abs();
                let dy = (p.y as i64 - q.y as i64).unsigned_abs();
                best = best.min(dx * dx + dy * dy);
            }
        }
        nearest.push(best);
    }
    let lo = *nearest.iter().min().unwrap();
    let hi = *nearest.iter().max().unwrap();
    assert!(lo > 0, "two points coincide");
    // distances (not squared) within a factor of 2: squared within 4
    assert!(hi <= 4 * lo, "nearest-neighbor distances too uneven: {nearest:?}");
    // spread: every nearest neighbor is at least 2 pixels away
    assert!(lo >= (2 * FP_SCALE as u64) * (2 * FP_SCALE as u64));
}

#[test]
fn scenario_zero_points_returns_empty() {
    let df = uniform_density(5, 5, 100);
    let cf = uniform_color(5, 5, 0, 0, 0);
    let res = generate_stippling(&df, &cf, 0, 11, 5).unwrap();
    assert!(res.points.is_empty());
    assert!(res.radii.is_empty());
    assert!(res.colors.is_empty());
}

#[test]
fn scenario_degenerate_density_is_rejected() {
    let df = DensityField::new(4, 4, vec![0u8; 16]).unwrap();
    let cf = uniform_color(4, 4, 0, 0, 0);
    let err = generate_stippling(&df, &cf, 3, 5, 2).unwrap_err();
    assert_eq!(err, StippleError::DegenerateDensity);
}

#[test]
fn dimension_mismatch_is_invalid_input() {
    let df = uniform_density(4, 4, 10);
    let cf = uniform_color(4, 5, 0, 0, 0);
    let err = generate_stippling(&df, &cf, 3, 5, 2).unwrap_err();
    assert_eq!(err, StippleError::InvalidInput);
}

#[test]
fn zero_area_is_invalid_input() {
    let df = DensityField::new(0, 4, Vec::new()).unwrap();
    let cf = ColorField::new(0, 4, Vec::new()).unwrap();
    let err = generate_stippling(&df, &cf, 3, 5, 2).unwrap_err();
    assert_eq!(err, StippleError::InvalidInput);
}

#[test]
fn field_constructors_check_their_input() {
    assert!(DensityField::new(3, 3, vec![0u8; 8]).is_none());
    assert!(DensityField::new(3, 3, vec![0u8; 9]).is_some());
    assert!(DensityField::new(40000, 1, vec![0u8; 40000]).is_none());
    assert!(ColorField::new(2, 2, vec![PointColor::new(0, 0, 0); 3]).is_none());
    assert!(ColorField::new(2, 2, vec![PointColor::new(0, 0, 0); 4]).is_some());
}

#[test]
fn point_color_holds_its_channels() {
    let c = PointColor::new(1, 2, 3);
    assert_eq!(c.r, 1);
    assert_eq!(c.g, 2);
    assert_eq!(c.b, 3);
}

#[test]
fn rng_step_is_the_documented_lcg() {
    // one step from state 0 is exactly the additive constant
    assert_eq!(rng_next(0), 1442695040888963407);
    assert_eq!(rng_next(7), rng_next(7));
    assert!(rng_below(rng_next(123), 10) < 10);
}

#[test]
fn collect_positive_finds_exactly_the_positive_pixels() {
    let w = vec![0u8, 3, 0, 0, 250, 1];
    let pos = collect_positive(&w);
    assert_eq!(pos, vec![1, 4, 5]);
}

#[test]
fn radii_grow_with_cell_mass() {
    // two far-apart heavy pixels of different weight: with zero passes the
    // two points sit on positive pixels and the heavier cell reports the
    // larger radius, the radius being the cell's weight mass
    let mut w = vec![0u8; 64];
    w[0] = 255;
    w[63] = 10;
    let df = DensityField::new(8, 8, w).unwrap();
    let cf = uniform_color(8, 8, 0, 0, 0);
    let res = generate_stippling(&df, &cf, 2, 9, 1).unwrap();
    assert_eq!(res.points.len(), 2);
    let total: u64 = res.radii.iter().sum();
    assert_eq!(total, 265, "every unit of weight mass is accounted for once");
    // the cell holding the heavy pixel reports the larger radius
    assert!(*res.radii.iter().max().unwrap() >= 255);
}
