//! The loss functions, checked on concrete batches.

use neural_network::fp::MathFn;
use neural_network::loss::Loss;
use neural_network::mat::Mat;

fn m(rows: Vec<Vec<f64>>) -> Mat {
    Mat { rows: rows.into_iter().map(|r| r.into_iter().map(|v| v.to_bits()).collect()).collect() }
}

fn to_f(mat: &Mat) -> Vec<Vec<f64>> {
    mat.rows.iter().map(|r| r.iter().map(|v| f64::from_bits(*v)).collect()).collect()
}

fn oracle(op: MathFn, b: u64) -> u64 {
    let x = f64::from_bits(b);
    match op {
        MathFn::Exp => x.exp().to_bits(),
        MathFn::Log2 => x.log2().to_bits(),
        MathFn::Tanh => x.tanh().to_bits(),
    }
}

#[test]
fn it_should_give_correct_mse() {
    let actual = m(vec![vec![0.1, 0.2, 0.3, 0.4, 0.5]]);
    let predicted = m(vec![vec![0.11, 0.19, 0.29, 0.41, 0.5]]);
    let mse = Loss::Mse;
    let left = mse.loss(&predicted, &actual, &oracle).unwrap();
    assert_eq!(f64::from_bits(left), 0.00007999999999999986)
}

#[test]
fn losses_it_should_give_correct_mse() {
    let actual = m(vec![vec![0.1, 0.2, 0.3, 0.4, 0.5]]);
    let predicted = m(vec![vec![0.11, 0.19, 0.29, 0.41, 0.5]]);
    let mse = Loss::Mse;
    let left = mse.loss(&predicted, &actual, &oracle).unwrap();
    assert_eq!(f64::from_bits(left), 0.00007999999999999986)
}

#[test]
fn it_should_give_correct_mse_grad() {
    let actual = m(vec![vec![0.1, 0.2, 0.3, 0.4, 0.5]]);
    let predicted = m(vec![vec![0.11, 0.19, 0.29, 0.41, 0.5]]);
    let mse = Loss::Mse;
    let left = mse.loss(&predicted, &actual, &oracle).unwrap();
    assert_eq!(f64::from_bits(left), 0.00007999999999999986)
}

#[test]
fn losses_it_should_give_correct_mse_grad() {
    let actual = m(vec![vec![0.1, 0.2, 0.3, 0.4, 0.5]]);
    let predicted = m(vec![vec![0.11, 0.19, 0.29, 0.41, 0.5]]);
    let mse = Loss::Mse;
    let left = mse.loss(&predicted, &actual, &oracle).unwrap();
    assert_eq!(f64::from_bits(left), 0.00007999999999999986)
}

#[test]
fn it_should_give_correct_cross_entropy_score() {
    let actual = m(vec![vec![0.10, 0.40, 0.50]]);
    let predicted = m(vec![vec![0.80, 0.15, 0.05]]);
    let cross_entropy = Loss::CrossEntropy;
    let left = cross_entropy.loss(&predicted, &actual, &oracle).unwrap();
    assert_eq!(f64::from_bits(left), 3.2879430945989)
}

#[test]
fn losses_it_should_give_correct_cross_entropy_score() {
    let actual = m(vec![vec![0.10, 0.40, 0.50]]);
    let predicted = m(vec![vec![0.80, 0.15, 0.05]]);
    let cross_entropy = Loss::CrossEntropy;
    let left = cross_entropy.loss(&predicted, &actual, &oracle).unwrap();
    assert_eq!(f64::from_bits(left), 3.2879430945989)
}


#[test]
fn it_should_give_correct_cross_entropy_grad() {
    let pred = m(vec![vec![0.15, 0.35, 0.25, 0.25], vec![0.05, 0.05, 0.9, 0.0000001]]);
    let target = m(vec![vec![0., 0., 1., 0.], vec![0., 0., 1., 0.]]);
    let s = Loss::CrossEntropy;
    let left = s.grad(&pred, &target).unwrap();
    let right = vec![
        vec![-0.0, -0.0, -4.0, -0.0],
        vec![-0.0, -0.0, -1.1111111111111112, -0.0],
    ];
    assert_eq!(to_f(&left), right)
}

#[test]
fn losses_it_should_give_correct_cross_entropy_grad() {
    let pred = m(vec![vec![0.15, 0.35, 0.25, 0.25], vec![0.05, 0.05, 0.9, 0.0000001]]);
    let target = m(vec![vec![0., 0., 1., 0.], vec![0., 0., 1., 0.]]);
    let s = Loss::CrossEntropy;
    let left = s.grad(&pred, &target).unwrap();
    let right = vec![
        vec![-0.0, -0.0, -4.0, -0.0],
        vec![-0.0, -0.0, -1.1111111111111112, -0.0],
    ];
    assert_eq!(to_f(&left), right)
}

#[test]
fn loss_rejects_mismatched_shapes() {
    let a = m(vec![vec![0.1, 0.2]]);
    let b = m(vec![vec![0.1, 0.2, 0.3]]);
    assert!(Loss::Mse.loss(&a, &b, &oracle).is_err());
    assert!(Loss::CrossEntropy.loss(&a, &b, &oracle).is_err());
    assert!(Loss::Mse.grad(&a, &b).is_err());
    assert!(Loss::CrossEntropy.grad(&a, &b).is_err());
}
