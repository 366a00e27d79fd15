use nnet::fixed::Fx;
use nnet::matrices::{Matrix, NnError};
use nnet::network::{Layer, NeuralNetwork};
use nnet::rng::Rng64;

fn fx(x: f64) -> Fx {
    Fx::new((x * 1_000_000f64).round() as i64)
}

fn mat(rows: usize, cols: usize, vals: &[f64]) -> Matrix {
    let buf: Vec<Fx> = vals.iter().map(|v| fx(*v)).collect();
    Matrix::into_matrix(buf, cols, rows).unwrap()
}

fn entry(m: &Matrix, i: usize, j: usize) -> i64 {
    m.get(i, j).unwrap().units
}

fn single_layer_net(w: &[f64], in_sz: usize, out_sz: usize, b: &[f64], rate: f64) -> NeuralNetwork {
    let weights = mat(in_sz, out_sz, w);
    let biases = mat(1, out_sz, b);
    let layer = Layer::from_parts(weights, biases).unwrap();
    NeuralNetwork::from_layers(vec![layer], fx(rate)).unwrap()
}

#[test]
fn from_parts_checks_the_bias_row() {
    let w = mat(2, 3, &[0.0; 6]);
    let good = mat(1, 3, &[0.0; 3]);
    assert!(Layer::from_parts(w, good).is_ok());
    let w = mat(2, 3, &[0.0; 6]);
    let narrow = mat(1, 2, &[0.0; 2]);
    assert_eq!(
        Layer::from_parts(w, narrow).unwrap_err(),
        NnError::DimensionMismatch
    );
    let w = mat(2, 3, &[0.0; 6]);
    let tall = mat(3, 1, &[0.0; 3]);
    assert_eq!(
        Layer::from_parts(w, tall).unwrap_err(),
        NnError::DimensionMismatch
    );
}

#[test]
fn from_layers_checks_the_chain() {
    assert_eq!(
        NeuralNetwork::from_layers(Vec::new(), fx(0.1)).unwrap_err(),
        NnError::EmptyInput
    );
    let a = Layer::from_parts(mat(2, 3, &[0.0; 6]), mat(1, 3, &[0.0; 3])).unwrap();
    let b = Layer::from_parts(mat(3, 1, &[0.0; 3]), mat(1, 1, &[0.0])).unwrap();
    assert!(NeuralNetwork::from_layers(vec![a, b], fx(0.1)).is_ok());
    let a = Layer::from_parts(mat(2, 3, &[0.0; 6]), mat(1, 3, &[0.0; 3])).unwrap();
    let c = Layer::from_parts(mat(2, 1, &[0.0; 2]), mat(1, 1, &[0.0])).unwrap();
    assert_eq!(
        NeuralNetwork::from_layers(vec![a, c], fx(0.1)).unwrap_err(),
        NnError::DimensionMismatch
    );
}

#[test]
fn layer_output_is_squashed_affine() {
    let layer = Layer::from_parts(mat(1, 1, &[0.5]), mat(1, 1, &[0.0])).unwrap();
    let out = layer.output(&mat(1, 1, &[1.0])).unwrap();
    assert_eq!(entry(&out, 0, 0), 622_459);
    assert_eq!(layer.amount_neurons(), 1);
    // A bias shifts the pre-activation before squashing.
    let layer = Layer::from_parts(mat(1, 1, &[0.0]), mat(1, 1, &[0.5])).unwrap();
    let out = layer.output(&mat(1, 1, &[3.0])).unwrap();
    assert_eq!(entry(&out, 0, 0), 622_459);
    // An input row of the wrong width is refused.
    assert_eq!(
        layer.output(&mat(1, 2, &[1.0, 1.0])).unwrap_err(),
        NnError::DimensionMismatch
    );
}

#[test]
fn network_output_folds_through_the_layers() {
    let first = Layer::from_parts(mat(2, 2, &[0.5, 0.0, 0.0, 0.5]), mat(1, 2, &[0.0, 0.0]))
        .unwrap();
    let second = Layer::from_parts(mat(2, 1, &[1.0, -1.0]), mat(1, 1, &[0.25])).unwrap();
    let net = NeuralNetwork::from_layers(vec![first, second], fx(0.1)).unwrap();
    let x = mat(1, 2, &[1.0, -1.0]);

    let first = Layer::from_parts(mat(2, 2, &[0.5, 0.0, 0.0, 0.5]), mat(1, 2, &[0.0, 0.0]))
        .unwrap();
    let second = Layer::from_parts(mat(2, 1, &[1.0, -1.0]), mat(1, 1, &[0.25])).unwrap();
    let by_hand = second.output(&first.output(&x).unwrap()).unwrap();

    let folded = net.output(&x).unwrap();
    assert_eq!(entry(&folded, 0, 0), entry(&by_hand, 0, 0));
    assert_eq!(
        net.output(&mat(1, 3, &[0.0, 0.0, 0.0])).unwrap_err(),
        NnError::DimensionMismatch
    );
}

#[test]
fn one_step_on_a_known_example() {
    // One input, one neuron, weight 0.5, bias 0, rate 0.1, input 1.0,
    // expected 1.0. Forward: z = 0.5, a = sigmoid(0.5) = 0.622459.
    // Error: (a - 1) * s'(z) = -0.377541 * 0.235003 -> -0.088723.
    // Weight gradient: 1.0 * -0.088723 scaled by 0.1 -> -0.008872;
    // bias gradient likewise. Both are subtracted.
    let mut net = single_layer_net(&[0.5], 1, 1, &[0.0], 0.1);
    net.learn(mat(1, 1, &[1.0]), mat(1, 1, &[1.0])).unwrap();
    let layer = net.layer(0).unwrap();
    assert_eq!(entry(layer.weights(), 0, 0), 508_872);
    assert_eq!(entry(layer.biases(), 0, 0), 8_872);
}

#[test]
fn a_malformed_batch_changes_nothing() {
    let mut net = single_layer_net(&[0.5, -0.25], 2, 1, &[0.125], 0.1);
    // Wrong input width.
    assert_eq!(
        net.learn(mat(1, 3, &[0.0; 3]), mat(1, 1, &[1.0])).unwrap_err(),
        NnError::IncompatibleBatch
    );
    // Label rows not matching input rows.
    assert_eq!(
        net.learn(mat(2, 2, &[0.0; 4]), mat(1, 1, &[1.0])).unwrap_err(),
        NnError::IncompatibleBatch
    );
    // Label rows of the wrong width.
    assert_eq!(
        net.learn(mat(1, 2, &[0.0; 2]), mat(1, 2, &[1.0, 0.0])).unwrap_err(),
        NnError::IncompatibleBatch
    );
    let layer = net.layer(0).unwrap();
    assert_eq!(entry(layer.weights(), 0, 0), 500_000);
    assert_eq!(entry(layer.weights(), 1, 0), -250_000);
    assert_eq!(entry(layer.biases(), 0, 0), 125_000);
}

#[test]
fn check_one_compares_argmax_positions() {
    // Zero weights and biases squash every output to the same value, so
    // the output side is a tie resolved to index 0.
    let net = single_layer_net(&[0.0; 6], 3, 2, &[0.0, 0.0], 0.1);
    let x = mat(1, 3, &[1.0, 2.0, 3.0]);
    assert_eq!(net.check_one(x, mat(1, 2, &[1.0, 0.0])).unwrap(), 1);
    let x = mat(1, 3, &[1.0, 2.0, 3.0]);
    assert_eq!(net.check_one(x, mat(1, 2, &[0.0, 1.0])).unwrap(), 0);
    // A tie among the labels also resolves to the first index.
    let x = mat(1, 3, &[1.0, 2.0, 3.0]);
    assert_eq!(net.check_one(x, mat(1, 2, &[1.0, 1.0])).unwrap(), 1);
    // A multi-row input is refused.
    let tall = mat(2, 3, &[0.0; 6]);
    assert_eq!(
        net.check_one(tall, mat(1, 2, &[1.0, 0.0])).unwrap_err(),
        NnError::DimensionMismatch
    );
}

#[test]
fn check_one_prefers_the_genuinely_larger_score() {
    // Weights that push the first output up for the first input feature.
    let net = single_layer_net(&[2.0, -2.0, -2.0, 2.0], 2, 2, &[0.0, 0.0], 0.1);
    let x = mat(1, 2, &[1.0, 0.0]);
    assert_eq!(net.check_one(x, mat(1, 2, &[1.0, 0.0])).unwrap(), 1);
    let x = mat(1, 2, &[0.0, 1.0]);
    assert_eq!(net.check_one(x, mat(1, 2, &[0.0, 1.0])).unwrap(), 1);
    let x = mat(1, 2, &[0.0, 1.0]);
    assert_eq!(net.check_one(x, mat(1, 2, &[1.0, 0.0])).unwrap(), 0);
}

#[test]
fn seeded_generators_replay_their_draws() {
    let mut a = Rng64::from_seed(7);
    let mut b = Rng64::from_seed(7);
    for _ in 0..32 {
        assert_eq!(a.next_u64(), b.next_u64());
    }
    let mut c = Rng64::from_seed(8);
    let mut any_differs = false;
    for _ in 0..32 {
        if a.next_u64() != c.next_u64() {
            any_differs = true;
        }
    }
    assert!(any_differs);
}

#[test]
fn normal_draws_stay_centred_in_range() {
    let mut rng = Rng64::from_seed(123);
    let mut sum: i64 = 0;
    for _ in 0..200 {
        let d = rng.next_normal();
        assert!(-6_000_000 <= d.units && d.units <= 6_000_000);
        sum += d.units;
    }
    // The mean of 200 draws stays well within one unit of zero.
    assert!(sum.abs() / 200 < 1_000_000);
}

#[test]
fn entropy_seeding_yields_a_working_generator() {
    let mut rng = Rng64::from_entropy();
    let d = rng.next_normal();
    assert!(-6_000_000 <= d.units && d.units <= 6_000_000);
}

#[test]
fn seeded_initialisation_is_reproducible() {
    let mut r1 = Rng64::from_seed(42);
    let mut r2 = Rng64::from_seed(42);
    let l1 = Layer::new(3, 2, &mut r1).unwrap();
    let l2 = Layer::new(3, 2, &mut r2).unwrap();
    for i in 0..2 {
        for j in 0..3 {
            assert_eq!(entry(l1.weights(), i, j), entry(l2.weights(), i, j));
        }
    }
    for j in 0..3 {
        assert_eq!(entry(l1.biases(), 0, j), entry(l2.biases(), 0, j));
    }
    assert_eq!(Layer::new(0, 2, &mut r1).unwrap_err(), NnError::EmptyInput);
    assert_eq!(Layer::new(2, 0, &mut r1).unwrap_err(), NnError::EmptyInput);

    let mut r3 = Rng64::from_seed(9);
    let mut r4 = Rng64::from_seed(9);
    let n1 = NeuralNetwork::new(4, vec![3, 2], fx(0.5), &mut r3).unwrap();
    let n2 = NeuralNetwork::new(4, vec![3, 2], fx(0.5), &mut r4).unwrap();
    let x = mat(1, 4, &[0.25, -0.5, 1.0, 0.0]);
    let o1 = n1.output(&x).unwrap();
    let x = mat(1, 4, &[0.25, -0.5, 1.0, 0.0]);
    let o2 = n2.output(&x).unwrap();
    assert_eq!(entry(&o1, 0, 0), entry(&o2, 0, 0));
    assert_eq!(entry(&o1, 0, 1), entry(&o2, 0, 1));
    assert_eq!(
        NeuralNetwork::new(0, vec![2], fx(0.5), &mut r3).unwrap_err(),
        NnError::EmptyInput
    );
    assert_eq!(
        NeuralNetwork::new(2, vec![2, 0], fx(0.5), &mut r3).unwrap_err(),
        NnError::EmptyInput
    );
    assert_eq!(
        NeuralNetwork::new(2, Vec::new(), fx(0.5), &mut r3).unwrap_err(),
        NnError::EmptyInput
    );
}

#[test]
fn training_learns_a_separable_problem() {
    // Two one-hot classes: repeated steps must drive every example to a
    // correct classification.
    let mut rng = Rng64::from_seed(42);
    let mut net = NeuralNetwork::new(2, vec![2], fx(2.0), &mut rng).unwrap();
    for _ in 0..400 {
        let batch = mat(2, 2, &[1.0, 0.0, 0.0, 1.0]);
        let labels = mat(2, 2, &[1.0, 0.0, 0.0, 1.0]);
        net.learn(batch, labels).unwrap();
    }
    let mut correct: u64 = 0;
    correct += net
        .check_one(mat(1, 2, &[1.0, 0.0]), mat(1, 2, &[1.0, 0.0]))
        .unwrap();
    correct += net
        .check_one(mat(1, 2, &[0.0, 1.0]), mat(1, 2, &[0.0, 1.0]))
        .unwrap();
    assert_eq!(correct, 2);
}

#[test]
fn training_learns_through_a_hidden_layer() {
    // A linearly separable two-class set, classified through a hidden
    // layer: accuracy must reach every example.
    let mut rng = Rng64::from_seed(7);
    let mut net = NeuralNetwork::new(2, vec![4, 2], fx(2.0), &mut rng).unwrap();
    let points: [[f64; 2]; 6] = [
        [1.0, 0.0],
        [0.9, 0.2],
        [0.8, 0.1],
        [0.0, 1.0],
        [0.2, 0.9],
        [0.1, 0.8],
    ];
    let labels: [[f64; 2]; 6] = [
        [1.0, 0.0],
        [1.0, 0.0],
        [1.0, 0.0],
        [0.0, 1.0],
        [0.0, 1.0],
        [0.0, 1.0],
    ];
    let flat_x: Vec<f64> = points.iter().flatten().copied().collect();
    let flat_y: Vec<f64> = labels.iter().flatten().copied().collect();
    for _ in 0..1500 {
        net.learn(mat(6, 2, &flat_x), mat(6, 2, &flat_y)).unwrap();
    }
    let mut correct: u64 = 0;
    for k in 0..6 {
        correct += net
            .check_one(mat(1, 2, &points[k]), mat(1, 2, &labels[k]))
            .unwrap();
    }
    assert_eq!(correct, 6);
}

#[test]
fn scores_stay_inside_the_unit_interval() {
    // Even saturating pre-activations squash to scores strictly between
    // the two class extremes.
    let net = single_layer_net(&[1000.0, -1000.0], 1, 2, &[0.0, 0.0], 0.1);
    let out = net.output(&mat(1, 1, &[1000.0])).unwrap();
    for j in 0..2 {
        let u = entry(&out, 0, j);
        assert!(0 < u && u < 1_000_000);
    }
}

#[test]
fn batched_inference_matches_row_by_row() {
    // Inference on a batch computes each example independently: the rows of
    // the batched output equal the single-row outputs.
    let mut rng = Rng64::from_seed(11);
    let net = NeuralNetwork::new(3, vec![4, 2], fx(0.5), &mut rng).unwrap();
    let rows: [[f64; 3]; 2] = [[0.5, -1.0, 2.0], [0.0, 0.25, -0.75]];
    let flat: Vec<f64> = rows.iter().flatten().copied().collect();
    let batched = net.output(&mat(2, 3, &flat)).unwrap();
    for (i, row) in rows.iter().enumerate() {
        let single = net.output(&mat(1, 3, row)).unwrap();
        for j in 0..2 {
            assert_eq!(entry(&batched, i, j), entry(&single, 0, j));
        }
    }
}

#[test]
fn entropy_construction_pins_the_architecture() {
    let net = NeuralNetwork::new_from_entropy(3, vec![5, 2], fx(0.25)).unwrap();
    assert_eq!(net.num_layers(), 2);
    assert_eq!(net.layer(0).unwrap().weights().dimensions(), (3, 5));
    assert_eq!(net.layer(0).unwrap().biases().dimensions(), (1, 5));
    assert_eq!(net.layer(1).unwrap().weights().dimensions(), (5, 2));
    assert_eq!(net.learn_rate().units, 250_000);
    assert_eq!(
        NeuralNetwork::new_from_entropy(0, vec![2], fx(0.25)).unwrap_err(),
        NnError::EmptyInput
    );
}

#[test]
fn one_step_averages_over_the_batch() {
    // Zero weight and bias over a batch of two examples. Both forward
    // outputs are 0.5 and s'(0) = 0.25. With expected outputs 1 and 0 the
    // two error signals are -0.125 and 0.125: the bias gradient, summed
    // over the batch, cancels to zero, while the weight gradient keeps
    // only the first example's -0.125 (the second input is 0). With rate
    // 0.2 over 2 examples the step is 0.1, so the weight moves to 0.0125.
    let mut net = single_layer_net(&[0.0], 1, 1, &[0.0], 0.2);
    net.learn(mat(2, 1, &[1.0, 0.0]), mat(2, 1, &[1.0, 0.0])).unwrap();
    let layer = net.layer(0).unwrap();
    assert_eq!(entry(layer.weights(), 0, 0), 12_500);
    assert_eq!(entry(layer.biases(), 0, 0), 0);
}
