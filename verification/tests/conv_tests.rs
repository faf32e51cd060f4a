//! The convolution layer: padding, forward maps and backward gradients on
//! hand-computed examples.

use neural_network::conv::{Cache3, Conv, PadMode};
use neural_network::dense::WeightInit;
use neural_network::mat::Mat;
use neural_network::tensor::Ten3;

fn m(rows: Vec<Vec<f64>>) -> Mat {
    Mat { rows: rows.into_iter().map(|r| r.into_iter().map(|v| v.to_bits()).collect()).collect() }
}

fn to_f(mat: &Mat) -> Vec<Vec<f64>> {
    mat.rows.iter().map(|r| r.iter().map(|v| f64::from_bits(*v)).collect()).collect()
}

fn rng(w: WeightInit) -> u64 {
    match w {
        WeightInit::Uniform(lo, _) => lo,
        WeightInit::Glorot(_) => (0.05f64).to_bits(),
    }
}

fn diag_conv(mode: PadMode, stride: usize, lr: f64) -> Conv {
    Conv {
        filters: Ten3 { mats: vec![m(vec![vec![1.0, 0.0], vec![0.0, 1.0]])] },
        filter_size: 2,
        num_filters: 1,
        stride,
        mode,
        learning_rate: lr.to_bits(),
        state: Cache3::AwaitingInput,
    }
}

#[test]
fn it_should_give_correct_zero_padding() {
    let mut a = m(vec![vec![1.0, 3.0, 2.0], vec![3.0, 1.0, 0.2], vec![3.0, 1.0, 0.2]]);
    let stride = 1;
    let b = [1.0, 1.0, 1.0];
    for (j, add) in b.iter().enumerate() {
        let v = f64::from_bits(a.rows[1][j]) + add;
        a.rows[1][j] = v.to_bits();
    }
    println!("a: {:?}", to_f(&a));
    let mode = "full";
    let s = Conv::init(10, 3, stride, mode.to_string(), (0.01f64).to_bits(), &rng);
    assert_eq!(s.num_filters, 10);
    assert_eq!(s.mode, PadMode::Full);
}

#[test]
fn padding_modes_have_documented_shapes() {
    let img = m(vec![vec![1.0, 2.0], vec![3.0, 4.0]]);
    let valid = diag_conv(PadMode::Valid, 1, 1.0).zero_padding(&img);
    assert_eq!(to_f(&valid), vec![vec![1.0, 2.0], vec![3.0, 4.0]]);
    let same = diag_conv(PadMode::Same, 1, 1.0).zero_padding(&img);
    assert_eq!(to_f(&same), vec![vec![1.0, 2.0, 0.0], vec![3.0, 4.0, 0.0], vec![0.0, 0.0, 0.0]]);
    let full = diag_conv(PadMode::Full, 1, 1.0).zero_padding(&img);
    assert_eq!(full.rows.len(), 6);
    assert_eq!(full.rows[0].len(), 6);
    // The image sits at the centred offset, two in from each edge.
    assert_eq!(f64::from_bits(full.rows[2][2]), 1.0);
    assert_eq!(f64::from_bits(full.rows[3][3]), 4.0);
    assert_eq!(f64::from_bits(full.rows[0][0]), 0.0);
}

#[test]
fn forward_matches_a_hand_computed_correlation() {
    let mut c = diag_conv(PadMode::Valid, 1, 1.0);
    let x = Ten3 { mats: vec![m(vec![vec![1.0, 2.0, 3.0], vec![4.0, 5.0, 6.0], vec![7.0, 8.0, 9.0]])] };
    let out = c.forward(&x).unwrap();
    // Each cell is the product-sum of the 2x2 diagonal filter with its patch.
    assert_eq!(to_f(&out.items[0].mats[0]), vec![vec![6.0, 8.0], vec![12.0, 14.0]]);
}

#[test]
fn backward_matches_hand_computed_gradients() {
    let mut c = diag_conv(PadMode::Valid, 1, 1.0);
    let x = Ten3 { mats: vec![m(vec![vec![1.0, 2.0, 3.0], vec![4.0, 5.0, 6.0], vec![7.0, 8.0, 9.0]])] };
    c.forward(&x).unwrap();
    let up = neural_network::tensor::Ten4 {
        items: vec![Ten3 { mats: vec![m(vec![vec![1.0, 1.0], vec![1.0, 1.0]])] }],
    };
    let dx = c.backward(&up).unwrap();
    // With an all-ones upstream map, each filter-weight gradient sums the
    // patch it touched, and the input gradient counts the filter weights
    // covering each cell.
    assert_eq!(
        to_f(&dx.mats[0]),
        vec![vec![1.0, 1.0, 0.0], vec![1.0, 2.0, 1.0], vec![0.0, 1.0, 1.0]]
    );
    assert_eq!(
        to_f(&c.filters.mats[0]),
        vec![vec![1.0 - 12.0, 0.0 - 16.0], vec![0.0 - 24.0, 1.0 - 28.0]]
    );
}

#[test]
fn backward_with_zero_upstream_changes_nothing() {
    let mut c = diag_conv(PadMode::Valid, 1, 0.5);
    let x = Ten3 { mats: vec![m(vec![vec![1.0, 2.0, 3.0], vec![4.0, 5.0, 6.0], vec![7.0, 8.0, 9.0]])] };
    c.forward(&x).unwrap();
    let up = neural_network::tensor::Ten4 {
        items: vec![Ten3 { mats: vec![m(vec![vec![0.0, 0.0], vec![0.0, 0.0]])] }],
    };
    let dx = c.backward(&up).unwrap();
    assert_eq!(to_f(&dx.mats[0]), vec![vec![0.0; 3]; 3]);
    assert_eq!(to_f(&c.filters.mats[0]), vec![vec![1.0, 0.0], vec![0.0, 1.0]]);
}

#[test]
fn backward_before_forward_is_an_error() {
    let mut c = diag_conv(PadMode::Valid, 1, 1.0);
    let up = neural_network::tensor::Ten4 {
        items: vec![Ten3 { mats: vec![m(vec![vec![1.0, 1.0], vec![1.0, 1.0]])] }],
    };
    assert!(c.backward(&up).is_err());
}
