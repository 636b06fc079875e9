use neuroevolution::arithmetic::Arithmetic;
use neuroevolution::network::{ActivationFunction, DimensionMismatch, Layer, Network, Neuron};

fn reals() -> Arithmetic<
    f32,
    impl Fn(f32, f32) -> f32,
    impl Fn(f32, f32) -> f32,
    impl Fn(f32, f32) -> f32,
    impl Fn(f32) -> f32,
> {
    Arithmetic {
        zero: 0.0f32,
        one: 1.0f32,
        add: |a: f32, b: f32| a + b,
        mul: |a: f32, b: f32| a * b,
        max: |a: f32, b: f32| a.max(b),
        tanh: |a: f32| a.tanh(),
    }
}

fn neuron(bias: f32, weights: Vec<f32>, activation_function: ActivationFunction) -> Neuron<f32> {
    Neuron { bias, weights, activation_function }
}

fn single(activation_function: ActivationFunction) -> Network<f32> {
    Network { layers: vec![Layer { neurons: vec![neuron(0.0, vec![1.0], activation_function)] }] }
}

#[test]
fn relu_neuron_cuts_negative_input() {
    let network = single(ActivationFunction::ReLU);
    assert_eq!(network.propagate(vec![-3.0], &reals()), Ok(vec![0.0]));
}

#[test]
fn relu_neuron_passes_positive_input() {
    let network = single(ActivationFunction::ReLU);
    assert_eq!(network.propagate(vec![2.5], &reals()), Ok(vec![2.5]));
}

#[test]
fn tanh_neuron_keeps_zero() {
    let network = single(ActivationFunction::TANH);
    assert_eq!(network.propagate(vec![0.0], &reals()), Ok(vec![0.0]));
}

#[test]
fn tanh_neuron_squashes() {
    let network = single(ActivationFunction::TANH);
    assert_eq!(network.propagate(vec![2.0], &reals()), Ok(vec![2.0f32.tanh()]));
    let out = network.propagate(vec![50.0], &reals()).unwrap();
    assert_eq!(out, vec![1.0]);
}

#[test]
fn neuron_adds_bias_to_weighted_sum() {
    let n = neuron(0.5, vec![2.0, -1.0, 4.0], ActivationFunction::ReLU);
    // 0.5 + (1 * 2 + 3 * -1 + 0.25 * 4) = 0.5
    assert_eq!(n.propagate(&[1.0, 3.0, 0.25], &reals()), Ok(0.5));
    let n = neuron(-2.0, vec![2.0, -1.0, 4.0], ActivationFunction::ReLU);
    assert_eq!(n.propagate(&[1.0, 3.0, 0.25], &reals()), Ok(0.0));
}

#[test]
fn products_are_added_in_the_order_of_the_inputs() {
    // In single precision 1e8 + 1 is 1e8, so the order of the additions shows.
    let n = neuron(0.0, vec![1.0, 1.0, 1.0], ActivationFunction::ReLU);
    assert_eq!(n.propagate(&[1e8, 1.0, -1e8], &reals()), Ok(0.0));
    let n = neuron(0.0, vec![1.0, 1.0, 1.0], ActivationFunction::ReLU);
    assert_eq!(n.propagate(&[1e8, -1e8, 1.0], &reals()), Ok(1.0));
}

#[test]
fn bias_is_added_after_the_sum() {
    let n = neuron(1.0, vec![1.0, 1.0], ActivationFunction::ReLU);
    assert_eq!(n.propagate(&[1e8, -1e8], &reals()), Ok(1.0));
}

#[test]
fn neuron_without_weights_gives_activated_bias() {
    let n = neuron(0.75, vec![], ActivationFunction::ReLU);
    assert_eq!(n.propagate(&[], &reals()), Ok(0.75));
    let n = neuron(-0.75, vec![], ActivationFunction::TANH);
    assert_eq!(n.propagate(&[], &reals()), Ok((-0.75f32).tanh()));
}

#[test]
fn neuron_rejects_wrong_number_of_inputs() {
    let n = neuron(0.0, vec![1.0, 2.0], ActivationFunction::TANH);
    assert_eq!(
        n.propagate(&[1.0], &reals()),
        Err(DimensionMismatch { weights: 2, inputs: 1 })
    );
    assert_eq!(
        n.propagate(&[1.0, 2.0, 3.0], &reals()),
        Err(DimensionMismatch { weights: 2, inputs: 3 })
    );
}

#[test]
fn layer_evaluates_neurons_in_order() {
    let layer = Layer {
        neurons: vec![
            neuron(0.0, vec![1.0, 0.0], ActivationFunction::ReLU),
            neuron(0.0, vec![0.0, 1.0], ActivationFunction::ReLU),
            neuron(1.0, vec![1.0, 1.0], ActivationFunction::ReLU),
        ],
    };
    assert_eq!(layer.propagate(vec![3.0, 4.0], &reals()), Ok(vec![3.0, 4.0, 8.0]));
}

#[test]
fn layer_reports_first_neuron_that_does_not_fit() {
    let layer = Layer {
        neurons: vec![
            neuron(0.0, vec![1.0, 0.0], ActivationFunction::ReLU),
            neuron(0.0, vec![1.0], ActivationFunction::ReLU),
            neuron(0.0, vec![1.0, 1.0, 1.0], ActivationFunction::ReLU),
        ],
    };
    assert_eq!(
        layer.propagate(vec![3.0, 4.0], &reals()),
        Err(DimensionMismatch { weights: 1, inputs: 2 })
    );
}

#[test]
fn empty_layer_gives_no_outputs() {
    let layer: Layer<f32> = Layer { neurons: vec![] };
    assert_eq!(layer.propagate(vec![3.0, 4.0], &reals()), Ok(vec![]));
}

#[test]
fn network_feeds_each_layer_with_the_one_before() {
    let network = Network {
        layers: vec![
            Layer {
                neurons: vec![
                    neuron(0.5, vec![1.0, -1.0], ActivationFunction::ReLU),
                    neuron(-1.0, vec![2.0, 0.5], ActivationFunction::ReLU),
                ],
            },
            Layer {
                neurons: vec![
                    neuron(0.0, vec![3.0, 0.0], ActivationFunction::TANH),
                    neuron(0.0, vec![1.0, 1.0], ActivationFunction::TANH),
                    neuron(0.25, vec![0.0, -0.125], ActivationFunction::ReLU),
                ],
            },
        ],
    };
    // first layer: relu(0.5 + 1 - 2) = 0, relu(-1 + 2 + 1) = 2
    // second layer: tanh(0), tanh(2), relu(0.25 - 0.25) = 0
    assert_eq!(
        network.propagate(vec![1.0, 2.0], &reals()),
        Ok(vec![0.0, 2.0f32.tanh(), 0.0])
    );
}

#[test]
fn network_without_layers_returns_its_inputs() {
    let network: Network<f32> = Network { layers: vec![] };
    assert_eq!(network.propagate(vec![1.0, -2.0], &reals()), Ok(vec![1.0, -2.0]));
}

#[test]
fn network_rejects_wrong_number_of_inputs() {
    let network = single(ActivationFunction::ReLU);
    assert_eq!(
        network.propagate(vec![1.0, 2.0], &reals()),
        Err(DimensionMismatch { weights: 1, inputs: 2 })
    );
    assert_eq!(
        network.propagate(vec![], &reals()),
        Err(DimensionMismatch { weights: 1, inputs: 0 })
    );
}

#[test]
fn network_reports_mismatch_between_layers() {
    let network = Network {
        layers: vec![
            Layer {
                neurons: vec![
                    neuron(0.0, vec![1.0], ActivationFunction::ReLU),
                    neuron(0.0, vec![1.0], ActivationFunction::ReLU),
                ],
            },
            Layer { neurons: vec![neuron(0.0, vec![1.0, 1.0, 1.0], ActivationFunction::ReLU)] },
        ],
    };
    assert_eq!(
        network.propagate(vec![1.0], &reals()),
        Err(DimensionMismatch { weights: 3, inputs: 2 })
    );
}

#[test]
fn network_reports_the_first_layer_that_does_not_fit() {
    let network = Network {
        layers: vec![
            Layer { neurons: vec![neuron(0.0, vec![1.0, 1.0], ActivationFunction::ReLU)] },
            Layer { neurons: vec![neuron(0.0, vec![1.0, 1.0, 1.0], ActivationFunction::ReLU)] },
        ],
    };
    assert_eq!(
        network.propagate(vec![1.0], &reals()),
        Err(DimensionMismatch { weights: 2, inputs: 1 })
    );
}

#[test]
fn propagation_repeats_bit_for_bit() {
    let network = Network {
        layers: vec![
            Layer {
                neurons: vec![
                    neuron(0.1, vec![0.3, -0.7, 0.9], ActivationFunction::ReLU),
                    neuron(-0.2, vec![0.11, 0.13, -0.17], ActivationFunction::TANH),
                ],
            },
            Layer { neurons: vec![neuron(0.05, vec![1.5, -2.5], ActivationFunction::TANH)] },
        ],
    };
    let first = network.propagate(vec![0.2, 0.4, 0.6], &reals()).unwrap();
    let second = network.propagate(vec![0.2, 0.4, 0.6], &reals()).unwrap();
    assert_eq!(first.len(), 1);
    assert_eq!(first[0].to_bits(), second[0].to_bits());
    let copy = network.clone();
    let third = copy.propagate(vec![0.2, 0.4, 0.6], &reals()).unwrap();
    assert_eq!(first[0].to_bits(), third[0].to_bits());
}

#[test]
fn propagation_works_on_integers_too() {
    let arith = Arithmetic {
        zero: 0i64,
        one: 1i64,
        add: |a: i64, b: i64| a + b,
        mul: |a: i64, b: i64| a * b,
        max: |a: i64, b: i64| a.max(b),
        tanh: |a: i64| a.signum(),
    };
    let network = Network {
        layers: vec![Layer {
            neurons: vec![
                Neuron {
                    bias: 1i64,
                    weights: vec![2, 3],
                    activation_function: ActivationFunction::ReLU,
                },
                Neuron {
                    bias: -100i64,
                    weights: vec![2, 3],
                    activation_function: ActivationFunction::ReLU,
                },
                Neuron {
                    bias: -100i64,
                    weights: vec![2, 3],
                    activation_function: ActivationFunction::TANH,
                },
            ],
        }],
    };
    assert_eq!(network.propagate(vec![5, 7], &arith), Ok(vec![32, 0, -1]));
}

#[test]
fn clone_copies_every_gene() {
    let network = Network {
        layers: vec![
            Layer {
                neurons: vec![
                    neuron(0.1, vec![0.3, -0.7], ActivationFunction::ReLU),
                    neuron(-0.2, vec![0.11, 0.13], ActivationFunction::TANH),
                ],
            },
            Layer { neurons: vec![neuron(0.05, vec![1.5, -2.5], ActivationFunction::TANH)] },
        ],
    };
    let copy = network.clone();
    assert_eq!(copy, network);
    assert_eq!(copy.layers[0].neurons[1].activation_function, ActivationFunction::TANH);
}
