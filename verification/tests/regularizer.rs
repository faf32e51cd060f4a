//! The L1 and L2 regularizers, checked on concrete matrices.

#![allow(non_snake_case)]

use neural_network::mat::Mat;
use neural_network::regularizer::Regularization;

fn m(rows: Vec<Vec<f64>>) -> Mat {
    Mat { rows: rows.into_iter().map(|r| r.into_iter().map(|v| v.to_bits()).collect()).collect() }
}

fn to_f(mat: &Mat) -> Vec<Vec<f64>> {
    mat.rows.iter().map(|r| r.iter().map(|v| f64::from_bits(*v)).collect()).collect()
}

#[test]
fn it_should_give_correct_L2_loss() {
    let a = m(vec![vec![1.0, 2.], vec![2.0, 3.0]]);
    let r = Regularization::L2 { alpha: (0.001f64).to_bits() };
    let left = r.loss(&a);
    assert_eq!(f64::from_bits(left), 0.009000000000000001)
}

#[test]
fn it_should_give_correct_L2_regularization() {
    let a = m(vec![vec![1.0, 2.], vec![2.0, 3.0]]);
    let r = Regularization::L2 { alpha: (0.001f64).to_bits() };
    let left = r.regularize(&a);
    assert_eq!(to_f(&left), vec![vec![0.001, 0.002], vec![0.002, 0.003]])
}

#[test]
fn it_should_give_correct_L1_loss() {
    let a = m(vec![vec![1.0, 2.], vec![2.0, 3.0]]);
    let r = Regularization::L1 { alpha: (0.001f64).to_bits() };
    let left = r.loss(&a);
    assert_eq!(f64::from_bits(left), 0.008)
}

#[test]
fn it_should_give_correct_L1_regularization() {
    let a = m(vec![vec![1.0, 2.], vec![2.0, 3.0]]);
    let r = Regularization::L1 { alpha: (0.001f64).to_bits() };
    let left = r.regularize(&a);
    assert_eq!(to_f(&left), vec![vec![0.001, 0.001], vec![0.001, 0.001]])
}

#[test]
fn l1_loss_takes_magnitudes() {
    // The L1 penalty sums absolute values, so a sign flip changes nothing.
    let a = m(vec![vec![-1.0, 2.], vec![2.0, -3.0]]);
    let r = Regularization::L1 { alpha: (0.001f64).to_bits() };
    assert_eq!(f64::from_bits(r.loss(&a)), 0.008)
}

#[test]
fn l1_gradient_is_signed() {
    let a = m(vec![vec![-1.0, 0.0], vec![2.0, -3.0]]);
    let r = Regularization::L1 { alpha: (0.001f64).to_bits() };
    let left = r.regularize(&a);
    assert_eq!(to_f(&left), vec![vec![-0.001, 0.0], vec![0.001, -0.001]])
}

#[test]
fn bias_penalties_follow_the_matrices() {
    let b: Vec<u64> = vec![(1.0f64).to_bits(), (-2.0f64).to_bits()];
    let l1 = Regularization::L1 { alpha: (0.5f64).to_bits() };
    let l2 = Regularization::L2 { alpha: (0.5f64).to_bits() };
    // L1: 0.5 * (|1| + |-2|) = 1.5; L2: 0.5 * (0.5*1 + 0.5*4) = 1.25.
    assert_eq!(f64::from_bits(l1.loss_bias(&b)), 1.5);
    assert_eq!(f64::from_bits(l2.loss_bias(&b)), 1.25);
    let rb = l2.regularize_bias(&b);
    let rb_f: Vec<f64> = rb.iter().map(|v| f64::from_bits(*v)).collect();
    assert_eq!(rb_f, vec![0.5, -1.0]);
}
