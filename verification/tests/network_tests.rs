//! Batching, matrices, construction from a configuration, training
//! end to end, and evaluation.

use neural_network::dense::WeightInit;
use neural_network::fp::MathFn;
use neural_network::layer::Layer;
use neural_network::loss::Loss;
use neural_network::mat::Mat;
use neural_network::network::{
    batches, argmax, flatten, get_activation, get_loss, get_regularization, Config, LayerSpec,
    NeuralNetwork, Sample,
};
use neural_network::activation::ActKind;
use neural_network::regularizer::Regularization;
use neural_network::reshape::ReshapeLayer;
use neural_network::tensor::{Ten3, Ten4, Tensor};

fn m(rows: Vec<Vec<f64>>) -> Mat {
    Mat { rows: rows.into_iter().map(|r| r.into_iter().map(|v| v.to_bits()).collect()).collect() }
}

fn to_f(mat: &Mat) -> Vec<Vec<f64>> {
    mat.rows.iter().map(|r| r.iter().map(|v| f64::from_bits(*v)).collect()).collect()
}

fn oracle(op: MathFn, b: u64) -> u64 {
    let x = f64::from_bits(b);
    match op {
        MathFn::Exp => x.exp().to_bits(),
        MathFn::Log2 => x.log2().to_bits(),
        MathFn::Tanh => x.tanh().to_bits(),
    }
}

fn rng(w: WeightInit) -> u64 {
    match w {
        WeightInit::Uniform(lo, _) => lo,
        WeightInit::Glorot(_) => (0.25f64).to_bits(),
    }
}

fn sample(vals: Vec<Vec<f64>>, target: Vec<f64>) -> Sample {
    Sample { image: m(vals), target: target.into_iter().map(|v| v.to_bits()).collect() }
}

#[test]
fn ten_samples_with_batch_size_three_make_four_batches() {
    // A dataset of 10 samples with batch_size 3 yields 4 batches of sizes
    // 3, 3, 3 and 1.
    let ds: Vec<Sample> = (0..10)
        .map(|i| sample(vec![vec![i as f64, 1.0]], vec![1.0, 0.0]))
        .collect();
    let bs = batches(&ds, 3).unwrap();
    assert_eq!(bs.len(), 4);
    let sizes: Vec<usize> = bs.iter().map(|b| b.0.rows.len()).collect();
    assert_eq!(sizes, vec![3, 3, 3, 1]);
    assert_eq!(to_f(&bs[3].0), vec![vec![9.0, 1.0]]);
    assert_eq!(to_f(&bs[0].1), vec![vec![1.0, 0.0]; 3]);
}

#[test]
fn batching_flattens_row_major() {
    let ds = vec![sample(vec![vec![1.0, 2.0], vec![3.0, 4.0]], vec![1.0])];
    let bs = batches(&ds, 2).unwrap();
    assert_eq!(to_f(&bs[0].0), vec![vec![1.0, 2.0, 3.0, 4.0]]);
    let flat = flatten(&m(vec![vec![1.0, 2.0], vec![3.0, 4.0]]));
    let flat_f: Vec<f64> = flat.iter().map(|v| f64::from_bits(*v)).collect();
    assert_eq!(flat_f, vec![1.0, 2.0, 3.0, 4.0]);
}

#[test]
fn batching_rejects_ragged_datasets() {
    let ds = vec![
        sample(vec![vec![1.0, 2.0]], vec![1.0]),
        sample(vec![vec![1.0, 2.0, 3.0]], vec![1.0]),
    ];
    assert!(batches(&ds, 2).is_err());
}

#[test]
fn matmul_and_transpose_on_hand_values() {
    let a = m(vec![vec![1.0, 2.0], vec![3.0, 4.0]]);
    let b = m(vec![vec![5.0, 6.0], vec![7.0, 8.0]]);
    let p = a.matmul(&b).unwrap();
    assert_eq!(to_f(&p), vec![vec![19.0, 22.0], vec![43.0, 50.0]]);
    assert_eq!(to_f(&a.transpose()), vec![vec![1.0, 3.0], vec![2.0, 4.0]]);
    assert_eq!(f64::from_bits(a.sum_all()), 10.0);
    assert_eq!(to_f(&a.div_by((2.0f64).to_bits())), vec![vec![0.5, 1.0], vec![1.5, 2.0]]);
    assert!(a.matmul(&m(vec![vec![1.0]])).is_err());
}

#[test]
fn mat_constructors_check_their_shapes() {
    let ok = Mat::new(vec![vec![1u64, 2u64], vec![3u64, 4u64]]);
    assert!(ok.is_ok());
    let ragged = Mat::new(vec![vec![1u64, 2u64], vec![3u64]]);
    assert!(ragged.is_err());
    let z = Mat::zeros(2, 3);
    assert_eq!(to_f(&z), vec![vec![0.0; 3]; 2]);
    let signed = m(vec![vec![-1.5, 2.0]]);
    assert_eq!(to_f(&signed.abs_entries()), vec![vec![1.5, 2.0]]);
}

#[test]
fn argmax_scans_left_to_right_and_keeps_the_first_tie() {
    let row: Vec<u64> = vec![1.0, 5.0, 5.0, 2.0].into_iter().map(|v: f64| v.to_bits()).collect();
    assert_eq!(argmax(&row), 1);
}

#[test]
fn name_resolution_has_documented_defaults() {
    assert_eq!(get_activation(&"relu".to_string()), ActKind::Relu);
    assert_eq!(get_activation(&"tanh".to_string()), ActKind::Tanh);
    assert_eq!(get_activation(&"linear".to_string()), ActKind::Linear);
    assert_eq!(get_activation(&"anything".to_string()), ActKind::Sigmoid);
    assert_eq!(get_loss(&"cross_entropy".to_string()), Loss::CrossEntropy);
    assert_eq!(get_loss(&"mse".to_string()), Loss::Mse);
    assert_eq!(
        get_regularization(&"L2".to_string(), (0.1f64).to_bits()),
        Some(Regularization::L2 { alpha: (0.1f64).to_bits() })
    );
    assert_eq!(get_regularization(&"none".to_string(), 0), None);
}

fn toy_config() -> Config {
    Config {
        conv_layers: Vec::new(),
        dense_layers: vec![LayerSpec {
            size: 4,
            learning_rate: None,
            activation: "relu".to_string(),
            weight_range: Some(((0.2f64).to_bits(), (0.4f64).to_bits())),
        }],
        image_size: 2,
        dataset_size: 2,
        epochs: 1,
        regularization: "none".to_string(),
        reg_constant: 0,
        learning_rate: (0.1f64).to_bits(),
        loss: "cross_entropy".to_string(),
        softmax: true,
    }
}

#[test]
fn init_builds_the_configured_stack() {
    let net = NeuralNetwork::init(&toy_config(), &rng);
    assert_eq!(net.layers.len(), 2);
    assert_eq!(net.loss, Loss::CrossEntropy);
    match &net.layers[0] {
        Layer::Dense(d) => {
            assert_eq!(d.w.rows.len(), 4);
            assert_eq!(d.w.rows[0].len(), 4);
            assert_eq!(d.b.len(), 4);
            assert_eq!(d.activation.kind, ActKind::Relu);
            assert_eq!(f64::from_bits(d.w.rows[0][0]), 0.2);
        },
        _ => panic!("expected a dense layer first"),
    }
    match &net.layers[1] {
        Layer::Softmax(_) => {},
        _ => panic!("expected a terminal softmax"),
    }
}

#[test]
fn one_epoch_of_training_moves_the_weights_and_keeps_the_loss_finite() {
    // A Dense(4, relu) + softmax network with cross entropy on a toy
    // 2-sample batch: one epoch must yield a finite epoch loss and must
    // have changed the weights.
    let mut net = NeuralNetwork::init(&toy_config(), &rng);
    let ds = vec![
        sample(vec![vec![1.0, 0.0], vec![0.0, 1.0]], vec![1.0, 0.0, 0.0, 0.0]),
        sample(vec![vec![0.0, 1.0], vec![1.0, 0.0]], vec![0.0, 1.0, 0.0, 0.0]),
    ];
    let (train_loss, val_loss) = net.fit(&ds, 1, 2, &ds, &oracle).unwrap();
    assert_eq!(train_loss.len(), 1);
    assert_eq!(val_loss.len(), 1);
    let epoch = f64::from_bits(train_loss[0]);
    assert!(epoch.is_finite());
    match &net.layers[0] {
        Layer::Dense(d) => {
            let moved = d.w.rows.iter().any(|r| r.iter().any(|v| f64::from_bits(*v) != 0.2));
            assert!(moved);
        },
        _ => panic!("expected a dense layer first"),
    }
}

#[test]
fn evaluate_reports_accuracy_over_one_hundred() {
    // A linear identity network scores exactly the samples whose largest
    // input sits at the target's hot index.
    let mut net = NeuralNetwork {
        layers: vec![Layer::Dense(neural_network::dense::Dense {
            w: m(vec![vec![1.0, 0.0], vec![0.0, 1.0]]),
            b: vec![0u64, 0u64],
            activation: neural_network::activation::Activation::new(ActKind::Linear),
            regularizer: None,
            learning_rate: (0.1f64).to_bits(),
            state: neural_network::activation::Cache::AwaitingInput,
        })],
        loss: Loss::Mse,
    };
    let ds = vec![
        sample(vec![vec![3.0, 1.0]], vec![1.0, 0.0]),
        sample(vec![vec![1.0, 3.0]], vec![1.0, 0.0]),
    ];
    let acc = net.evaluate(&ds, &oracle).unwrap();
    assert_eq!(f64::from_bits(acc), 50.0);
}

#[test]
fn network_backward_before_forward_fails() {
    let mut net = NeuralNetwork::init(&toy_config(), &rng);
    let g = m(vec![vec![0.1, 0.2, 0.3, 0.4]]);
    assert!(net.backward(Tensor::D2(g), &oracle).is_err());
}

#[test]
fn reshape_round_trip_keeps_the_flattened_shape_not_the_original() {
    // Reshape's backward is a pass-through, not an inverse: the round trip
    // of a rank-4 tensor is the rank-2 flattening.
    let t4 = Ten4 {
        items: vec![
            Ten3 { mats: vec![m(vec![vec![1.0, 2.0], vec![3.0, 4.0]])] },
            Ten3 { mats: vec![m(vec![vec![5.0, 6.0], vec![7.0, 8.0]])] },
        ],
    };
    let rl = ReshapeLayer;
    let flat = rl.forward(&t4).unwrap();
    assert_eq!(
        to_f(&flat),
        vec![vec![1.0, 2.0], vec![3.0, 4.0], vec![5.0, 6.0], vec![7.0, 8.0]]
    );
    let back = rl.backward(Tensor::D2(flat));
    match back {
        Tensor::D2(mm) => {
            assert_eq!(mm.rows.len(), 4);
            assert_eq!(mm.rows[0].len(), 2);
        },
        _ => panic!("the round trip stays rank 2"),
    }
}

#[test]
fn conv_layer_feeds_reshape_and_dense_through_the_stack() {
    // A conv stage, the reshape bridge and a dense stage compose through
    // the network forward pass.
    let conv = neural_network::conv::Conv {
        filters: Ten3 { mats: vec![m(vec![vec![1.0]])] },
        filter_size: 1,
        num_filters: 1,
        stride: 1,
        mode: neural_network::conv::PadMode::Valid,
        learning_rate: (0.1f64).to_bits(),
        state: neural_network::conv::Cache3::AwaitingInput,
    };
    let dense = neural_network::dense::Dense {
        w: m(vec![vec![1.0, 0.0], vec![0.0, 1.0]]),
        b: vec![0u64, 0u64],
        activation: neural_network::activation::Activation::new(ActKind::Linear),
        regularizer: None,
        learning_rate: (0.1f64).to_bits(),
        state: neural_network::activation::Cache::AwaitingInput,
    };
    let mut net = NeuralNetwork {
        layers: vec![Layer::Conv(conv), Layer::Reshape(ReshapeLayer), Layer::Dense(dense)],
        loss: Loss::Mse,
    };
    let x = Ten3 { mats: vec![m(vec![vec![1.0, 2.0], vec![3.0, 4.0]])] };
    let out = net.forward(Tensor::D3(x), &oracle).unwrap();
    match out {
        Tensor::D2(mm) => {
            // The 1x1 identity filter keeps the image; reshape flattens the
            // single 2x2 feature map to (1*1*2) x 2; the identity dense
            // stage keeps the rows.
            assert_eq!(to_f(&mm), vec![vec![1.0, 2.0], vec![3.0, 4.0]]);
        },
        _ => panic!("expected a rank-2 output"),
    }
}
