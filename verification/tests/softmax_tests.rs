//! The softmax layer: forward, Jacobian and backward on concrete batches.

use neural_network::fp::MathFn;
use neural_network::mat::Mat;
use neural_network::softmax::Softmax;

fn m(rows: Vec<Vec<f64>>) -> Mat {
    Mat { rows: rows.into_iter().map(|r| r.into_iter().map(|v| v.to_bits()).collect()).collect() }
}

fn to_f(mat: &Mat) -> Vec<Vec<f64>> {
    mat.rows.iter().map(|r| r.iter().map(|v| f64::from_bits(*v)).collect()).collect()
}

fn oracle(op: MathFn, b: u64) -> u64 {
    let x = f64::from_bits(b);
    match op {
        MathFn::Exp => x.exp().to_bits(),
        MathFn::Log2 => x.log2().to_bits(),
        MathFn::Tanh => x.tanh().to_bits(),
    }
}

#[test]
fn it_should_give_correct_softmax() {
    let a = m(vec![vec![1.0, 3.0, 2.0]]);
    let b = m(vec![vec![3.0, 1.0, 0.2]]);
    let mut s = Softmax::init();
    let left = s.forward(&a, &oracle);
    let left2 = s.forward(&b, &oracle);
    assert_eq!(
        to_f(&left),
        vec![vec![0.09003057317038046, 0.6652409557748218, 0.24472847105479764]]
    );
    assert_eq!(
        to_f(&left2),
        vec![vec![0.8360188027814407, 0.11314284146556013, 0.05083835575299916]]
    )
}

#[test]
fn it_should_give_correct_softmax_v2() {
    let a = m(vec![vec![1., 3., -1.], vec![1., -100., 3.]]);
    let mut s = Softmax::init();
    let left = s.forward(&a, &oracle);
    assert_eq!(
        to_f(&left),
        vec![
            vec![
                0.11731042782619835,
                0.8668133321973347,
                0.015876239976466762
            ],
            vec![
                0.11920292202211755,
                0.0000000000000000000000000000000000000000000016313390386652676,
                0.8807970779778823
            ]
        ]
    )
}

#[test]
fn it_should_give_correct_softmax_derivative() {
    let a = m(vec![vec![1., 3., -1.], vec![1., -100., 3.]]);
    let mut s = Softmax::init();
    let _forward_call = s.forward(&a, &oracle);
    let left = s.derivative(&oracle).unwrap();
    let left_f: Vec<Vec<Vec<f64>>> = left
        .mats
        .iter()
        .map(|mm| mm.rows.iter().map(|r| r.iter().map(|v| f64::from_bits(*v)).collect()).collect())
        .collect();
    let right = vec![
        vec![
            vec![
                0.10354869134943266,
                -0.10168624284552193,
                -0.0018624485039107092
            ],
            vec![
                -0.10168624284552193,
                0.11544797932228779,
                -0.013761736476765688
            ],
            vec![
                -0.0018624485039107092,
                -0.013761736476765688,
                0.0156241849806764
            ],
        ],
        vec![
            vec![
                0.1049935854035065,
                -0.0000000000000000000000000000000000000000000001944603802176521,
                -0.10499358540350649
            ],
            vec![
                -0.0000000000000000000000000000000000000000000001944603802176521,
                0.0000000000000000000000000000000000000000000016313390386652676,
                -0.0000000000000000000000000000000000000000000014368786584476152
            ],
            vec![
                -0.10499358540350649,
                -0.0000000000000000000000000000000000000000000014368786584476152,
                0.10499358540350662
            ],
        ],
    ];
    assert_eq!(left_f, right);
}

#[test]
fn it_should_give_correct_softmax_backward() {
    let a = m(vec![vec![1., 3., -1.], vec![1., -100., 3.]]);
    let temp_grad = m(vec![vec![0.3, -0.6, 1.], vec![1., 1., 1.]]);
    let mut s = Softmax::init();
    let forward_call = s.forward(&a, &oracle);
    let left = s.backward(&temp_grad, &oracle).unwrap();
    assert_eq!(
        to_f(&forward_call),
        vec![
            vec![
                0.11731042782619835,
                0.8668133321973347,
                0.015876239976466762
            ],
            vec![
                0.11920292202211755,
                0.0000000000000000000000000000000000000000000016313390386652676,
                0.8807970779778823
            ]
        ]
    );
    assert_eq!(
        to_f(&left),
        vec![
            vec![
                0.09021390460823224,
                -0.11353639692379494,
                0.0233224923155626
            ],
            vec![
                0.000000000000000013877787807814457,
                0.0000000000000000000000000000000000000000000000000000000000003111507638930571,
                0.0000000000000001249000902703301
            ]
        ]
    )
}

#[test]
fn softmax_rows_sum_to_one() {
    // Every row of a softmax output sums to 1 within floating tolerance,
    // and every entry lies in [0, 1].
    let a = m(vec![vec![1.0, 3.0, 2.0], vec![-5.0, 0.0, 5.0], vec![100.0, -100.0, 0.0]]);
    let mut s = Softmax::init();
    let out = to_f(&s.forward(&a, &oracle));
    for row in out {
        let sum: f64 = row.iter().sum();
        assert!((sum - 1.0).abs() < 1e-9);
        for v in row {
            assert!((0.0..=1.0).contains(&v));
        }
    }
}

#[test]
fn softmax_backward_needs_a_forward_first() {
    let g = m(vec![vec![0.1, 0.2]]);
    let mut s = Softmax::init();
    assert!(s.backward(&g, &oracle).is_err());
    assert!(s.derivative(&oracle).is_err());
}
