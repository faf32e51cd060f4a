//! The dataset generators, noise and the three-way split, driven by
//! deterministic samplers.

use neural_network::datagen::{
    generate_circle, generate_dataset, generate_horizontal_bars, generate_rectangles,
    generate_vertical_bars, get_target, random_particles, random_set, split_dataset,
};
use neural_network::mat::Mat;
use neural_network::network::Sample;

fn m(rows: Vec<Vec<f64>>) -> Mat {
    Mat { rows: rows.into_iter().map(|r| r.into_iter().map(|v| v.to_bits()).collect()).collect() }
}

fn to_f(mat: &Mat) -> Vec<Vec<f64>> {
    mat.rows.iter().map(|r| r.iter().map(|v| f64::from_bits(*v)).collect()).collect()
}

fn low(lo: i64, _hi: i64) -> i64 {
    lo
}

#[test]
fn circle_with_the_smallest_draws_is_a_radius_one_disc() {
    // With every draw clamped to the low end, the radius is 1 and the
    // centre is (1, 1).
    let img = generate_circle(4, 4, false, &low);
    assert_eq!(
        to_f(&img),
        vec![
            vec![0.0, 1.0, 0.0, 0.0],
            vec![1.0, 1.0, 1.0, 0.0],
            vec![0.0, 1.0, 0.0, 0.0],
            vec![0.0, 0.0, 0.0, 0.0],
        ]
    );
}

#[test]
fn centred_circle_sits_at_the_midpoint() {
    let img = generate_circle(5, 5, true, &low);
    // Radius 1 around (2, 2).
    assert_eq!(f64::from_bits(img.rows[2][2]), 1.0);
    assert_eq!(f64::from_bits(img.rows[2][1]), 1.0);
    assert_eq!(f64::from_bits(img.rows[0][0]), 0.0);
}

#[test]
fn bars_fall_on_the_drawn_rows_and_columns() {
    let h = generate_horizontal_bars(6, 6, false, &low);
    // Two bars on rows 0 and 1 (the clamped draws).
    assert_eq!(to_f(&h)[0], vec![1.0; 6]);
    assert_eq!(to_f(&h)[1], vec![1.0; 6]);
    assert_eq!(to_f(&h)[2], vec![0.0; 6]);
    let v = generate_vertical_bars(6, 6, false, &low);
    for row in to_f(&v) {
        assert_eq!(row, vec![1.0, 1.0, 0.0, 0.0, 0.0, 0.0]);
    }
}

#[test]
fn rectangles_draw_a_hollow_outline() {
    let img = generate_rectangles(6, 6, false, &low);
    // Height and width 2 at the origin: a closed 2x3 outline block.
    let f = to_f(&img);
    assert_eq!(f[0][0], 1.0);
    assert_eq!(f[1][0], 1.0);
    assert_eq!(f[0][2], 1.0);
    assert_eq!(f[3][3], 0.0);
    assert_eq!(img.rows.len(), 6);
}

#[test]
fn random_set_falls_back_to_distinct_values() {
    // A sampler that keeps repeating one value still yields n distinct
    // positions through the deterministic fill.
    let stuck = |_lo: i64, _hi: i64| 3i64;
    let ps = random_set(4, 8, &stuck);
    assert_eq!(ps.len(), 4);
    let mut seen = ps.clone();
    seen.sort();
    seen.dedup();
    assert_eq!(seen.len(), 4);
    assert!(ps.contains(&3));
}

#[test]
fn get_target_is_one_hot() {
    let t = get_target(2);
    let f: Vec<f64> = t.iter().map(|v| f64::from_bits(*v)).collect();
    assert_eq!(f, vec![0.0, 0.0, 1.0, 0.0]);
}

#[test]
fn noise_flips_exactly_below_the_threshold() {
    let img = m(vec![vec![0.0, 1.0], vec![1.0, 0.0]]);
    let half = || (0.5f64).to_bits();
    // Noise 0: every draw lands above the threshold, the image is kept.
    let kept = random_particles(&img, (0.0f64).to_bits(), &half);
    assert_eq!(to_f(&kept), vec![vec![0.0, 1.0], vec![1.0, 0.0]]);
    // Noise 1: every draw lands below, every cell flips.
    let flipped = random_particles(&img, (1.0f64).to_bits(), &half);
    assert_eq!(to_f(&flipped), vec![vec![1.0, 0.0], vec![0.0, 1.0]]);
}

#[test]
fn dataset_cycles_through_the_four_classes() {
    let half = || (0.5f64).to_bits();
    let ds = generate_dataset(6, 6, 6, false, (0.0f64).to_bits(), &low, &half);
    assert_eq!(ds.len(), 6);
    for (i, s) in ds.iter().enumerate() {
        let t: Vec<f64> = s.target.iter().map(|v| f64::from_bits(*v)).collect();
        let mut expected = vec![0.0; 4];
        expected[i % 4] = 1.0;
        assert_eq!(t, expected);
    }
    // Classes 0, 2 and 3 draw on the 6x6 frame; class 1 frames by the
    // image size, here also 6.
    assert_eq!(ds[0].image.rows.len(), 6);
    assert_eq!(ds[1].image.rows.len(), 6);
}

#[test]
fn split_sends_every_sample_where_its_draw_points() {
    let ds: Vec<Sample> = (0..5)
        .map(|i| Sample {
            image: m(vec![vec![i as f64]]),
            target: vec![(1.0f64).to_bits()],
        })
        .collect();
    let t = (0.7f64).to_bits();
    let v = (0.15f64).to_bits();
    // Draws below 0.7 all train.
    let (tr, va, te) = split_dataset(&ds, t, v, &|| (0.1f64).to_bits());
    assert_eq!((tr.len(), va.len(), te.len()), (5, 0, 0));
    // Draws in [0.7, 0.85) all validate.
    let (tr, va, te) = split_dataset(&ds, t, v, &|| (0.75f64).to_bits());
    assert_eq!((tr.len(), va.len(), te.len()), (0, 5, 0));
    // Draws at or above 0.85 all test.
    let (tr, va, te) = split_dataset(&ds, t, v, &|| (0.9f64).to_bits());
    assert_eq!((tr.len(), va.len(), te.len()), (0, 0, 5));
    assert_eq!(to_f(&te[4].image), vec![vec![4.0]]);
}
