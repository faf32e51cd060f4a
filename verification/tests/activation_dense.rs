//! Activations and the dense layer on concrete values.

use neural_network::activation::{ActKind, Activation, Cache};
use neural_network::fp::MathFn;
use neural_network::mat::Mat;
use neural_network::dense::Dense;
use neural_network::regularizer::Regularization;

fn m(rows: Vec<Vec<f64>>) -> Mat {
    Mat { rows: rows.into_iter().map(|r| r.into_iter().map(|v| v.to_bits()).collect()).collect() }
}

fn to_f(mat: &Mat) -> Vec<Vec<f64>> {
    mat.rows.iter().map(|r| r.iter().map(|v| f64::from_bits(*v)).collect()).collect()
}

fn oracle(op: MathFn, b: u64) -> u64 {
    let x = f64::from_bits(b);
    match op {
        MathFn::Exp => x.exp().to_bits(),
        MathFn::Log2 => x.log2().to_bits(),
        MathFn::Tanh => x.tanh().to_bits(),
    }
}

#[test]
fn sigmoid_values_stay_strictly_inside_the_unit_interval() {
    let a = Activation::new(ActKind::Sigmoid);
    let x = m(vec![vec![-30.0, -5.0, 0.0, 5.0, 30.0]]);
    let out = to_f(&a.call(&x, &oracle));
    for v in &out[0] {
        assert!(*v > 0.0 && *v < 1.0);
    }
    assert_eq!(out[0][2], 0.5);
}

#[test]
fn relu_and_linear_are_exact() {
    let r = Activation::new(ActKind::Relu);
    let l = Activation::new(ActKind::Linear);
    let x = m(vec![vec![-1.5, 0.0, 2.5]]);
    assert_eq!(to_f(&r.call(&x, &oracle)), vec![vec![0.0, 0.0, 2.5]]);
    assert_eq!(to_f(&r.derivative(&x, &oracle)), vec![vec![0.0, 0.0, 1.0]]);
    assert_eq!(to_f(&l.call(&x, &oracle)), vec![vec![-1.5, 0.0, 2.5]]);
    assert_eq!(to_f(&l.derivative(&x, &oracle)), vec![vec![1.0, 1.0, 1.0]]);
}

#[test]
fn tanh_follows_the_library_tangent() {
    let t = Activation::new(ActKind::Tanh);
    let x = m(vec![vec![-1.0, 0.0, 1.0]]);
    let out = to_f(&t.call(&x, &oracle));
    assert_eq!(out, vec![vec![(-1.0f64).tanh(), 0.0, (1.0f64).tanh()]]);
    let d = to_f(&t.derivative(&x, &oracle));
    let th = (1.0f64).tanh();
    assert_eq!(d[0][1], 1.0);
    assert_eq!(d[0][2], 1.0 - th * th);
}

#[test]
fn activation_backward_is_the_masked_gradient() {
    let mut r = Activation::new(ActKind::Relu);
    let x = m(vec![vec![-1.0, 2.0]]);
    let g = m(vec![vec![3.0, 4.0]]);
    r.forward(&x, &oracle);
    let out = r.backward(&g, &oracle).unwrap();
    assert_eq!(to_f(&out), vec![vec![0.0, 4.0]]);
}

#[test]
fn activation_backward_before_forward_fails() {
    let mut r = Activation::new(ActKind::Relu);
    let g = m(vec![vec![1.0]]);
    assert!(r.backward(&g, &oracle).is_err());
}

fn identity_dense(lr: f64, reg: Option<Regularization>) -> Dense {
    Dense {
        w: m(vec![vec![1.0, 0.0], vec![0.0, 1.0]]),
        b: vec![(1.0f64).to_bits(), (2.0f64).to_bits()],
        activation: Activation::new(ActKind::Linear),
        regularizer: reg,
        learning_rate: lr.to_bits(),
        state: Cache::AwaitingInput,
    }
}

#[test]
fn dense_forward_is_x_w_plus_b() {
    let mut d = identity_dense(0.5, None);
    let x = m(vec![vec![3.0, 4.0]]);
    let y = d.forward(&x, &oracle).unwrap();
    assert_eq!(to_f(&y), vec![vec![4.0, 6.0]]);
}

#[test]
fn dense_backward_updates_parameters_and_propagates() {
    let mut d = identity_dense(0.5, None);
    let x = m(vec![vec![3.0, 4.0]]);
    d.forward(&x, &oracle).unwrap();
    let g = m(vec![vec![1.0, 1.0]]);
    let (down, penalty) = d.backward(&g, &oracle).unwrap();
    // weight_grad = x^T·g / 1, bias_grad = sum(g) / 1 = 2; the downstream
    // gradient uses the weights as they stood on entry.
    assert_eq!(to_f(&down), vec![vec![1.0, 1.0]]);
    assert_eq!(f64::from_bits(penalty), 0.0);
    assert_eq!(to_f(&d.w), vec![vec![-0.5, -1.5], vec![-2.0, -1.0]]);
    let b: Vec<f64> = d.b.iter().map(|v| f64::from_bits(*v)).collect();
    assert_eq!(b, vec![0.0, 1.0]);
}

#[test]
fn dense_backward_before_forward_fails() {
    let mut d = identity_dense(0.5, None);
    let g = m(vec![vec![1.0, 1.0]]);
    assert!(d.backward(&g, &oracle).is_err());
}

#[test]
fn dense_regularization_step_precedes_the_descent_step() {
    let mut d = identity_dense(0.0, Some(Regularization::L2 { alpha: (0.1f64).to_bits() }));
    let x = m(vec![vec![1.0, 1.0]]);
    d.forward(&x, &oracle).unwrap();
    let g = m(vec![vec![0.0, 0.0]]);
    // With a zero learning rate nothing moves, but the penalty is still
    // reported: alpha * (0.5*1 + 0.5*1) for the weights, bias term added.
    let (_, penalty) = d.backward(&g, &oracle).unwrap();
    let expected = 0.1 * (0.5 + 0.5) + 0.1 * (0.5 * 1.0 * 1.0 + 0.5 * 2.0 * 2.0);
    assert_eq!(f64::from_bits(penalty), expected);
    assert_eq!(to_f(&d.w), vec![vec![1.0, 0.0], vec![0.0, 1.0]]);
}
