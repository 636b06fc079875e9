use neuroevolution::arithmetic::Arithmetic;
use neuroevolution::brain::{
    Brain, BrainAction, Content, Interaction, Request, Senses, ThinkError,
};
use neuroevolution::chance::Lottery;
use neuroevolution::network::{
    ActivationFunction, DimensionMismatch, Layer, Network, Neuron,
};
use rand::distributions::WeightedIndex;
use rand::Rng;
use std::cell::RefCell;

fn reals() -> Arithmetic<
    f32,
    impl Fn(f32, f32) -> f32,
    impl Fn(f32, f32) -> f32,
    impl Fn(f32, f32) -> f32,
    impl Fn(f32) -> f32,
> {
    Arithmetic {
        zero: 0.0f32,
        one: 1.0f32,
        add: |a: f32, b: f32| a + b,
        mul: |a: f32, b: f32| a * b,
        max: |a: f32, b: f32| a.max(b),
        tanh: |a: f32| a.tanh(),
    }
}

fn uniform(amount: f32) -> f32 {
    rand::thread_rng().gen_range(-amount..=amount)
}

fn weighted() -> Lottery<
    impl Fn(&Vec<f32>) -> Option<WeightedIndex<f32>>,
    impl Fn(&WeightedIndex<f32>) -> usize,
> {
    Lottery {
        build: |weights: &Vec<f32>| WeightedIndex::new(weights).ok(),
        pick: |distribution: &WeightedIndex<f32>| rand::thread_rng().sample(distribution),
    }
}

/// One layer that hands each sense through, scaled.
fn mirror(scale: f32, activation_function: ActivationFunction) -> Brain<f32> {
    let neuron = |at: usize| {
        let mut weights = vec![0.0f32; 3];
        weights[at] = scale;
        Neuron { bias: 0.0f32, weights, activation_function }
    };
    Brain::from_network(Network {
        layers: vec![Layer { neurons: vec![neuron(0), neuron(1), neuron(2)] }],
    })
}

/// One layer whose outputs are the hyperbolic tangents of the given biases.
fn biased(biases: &[f32]) -> Brain<f32> {
    Brain::from_network(Network {
        layers: vec![Layer {
            neurons: biases
                .iter()
                .map(|bias| Neuron {
                    bias: *bias,
                    weights: vec![0.0f32; 3],
                    activation_function: ActivationFunction::TANH,
                })
                .collect(),
        }],
    })
}

fn senses(inventory_full: bool, target_unreachable: bool, deposit_unreachable: bool) -> Senses {
    Senses { inventory_full, target_unreachable, deposit_unreachable }
}

const ACQUIRE: BrainAction = BrainAction::GetContent(Content::Garbage(1));
const DEPOSIT: BrainAction = BrainAction::PutContent(Content::Bin(0, 0), Content::Garbage(1));

#[test]
fn indices_stand_for_the_three_intents() {
    assert_eq!(BrainAction::from_index(0), Some(ACQUIRE));
    assert_eq!(BrainAction::from_index(1), Some(DEPOSIT));
    assert_eq!(BrainAction::from_index(2), Some(BrainAction::Explore));
    assert_eq!(BrainAction::from_index(3), None);
    assert_eq!(BrainAction::from_index(usize::MAX), None);
}

#[test]
fn intents_ask_the_resolver_their_question() {
    assert_eq!(
        ACQUIRE.request(),
        Request { target: Content::Garbage(1), interaction: Some(Interaction::Destroy) }
    );
    assert_eq!(
        DEPOSIT.request(),
        Request {
            target: Content::Bin(0, 0),
            interaction: Some(Interaction::Put(Content::Garbage(1), 100)),
        }
    );
    assert_eq!(
        BrainAction::Explore.request(),
        Request { target: Content::Nothing, interaction: None }
    );
    assert_eq!(
        BrainAction::PutContent(Content::Bin(2, 9), Content::Garbage(4)).request(),
        Request {
            target: Content::Bin(2, 9),
            interaction: Some(Interaction::Put(Content::Garbage(4), 100)),
        }
    );
}

#[test]
fn probes_ask_for_garbage_and_for_a_bin() {
    assert_eq!(
        Senses::acquire_probe(),
        Request { target: Content::Garbage(1), interaction: Some(Interaction::Destroy) }
    );
    assert_eq!(
        Senses::deposit_probe(),
        Request {
            target: Content::Bin(0, 0),
            interaction: Some(Interaction::Put(Content::Garbage(1), 1)),
        }
    );
}

#[test]
fn storage_is_full_when_nothing_more_fits() {
    let found = Some(());
    assert!(Senses::observe(20, &vec![5, 15], &found, &found).inventory_full);
    assert!(!Senses::observe(20, &vec![5, 14], &found, &found).inventory_full);
    assert!(!Senses::observe(20, &vec![], &found, &found).inventory_full);
    assert!(Senses::observe(0, &vec![], &found, &found).inventory_full);
    assert!(Senses::observe(20, &vec![0, 0, 20, 0], &found, &found).inventory_full);
    assert!(Senses::observe(20, &vec![30], &found, &found).inventory_full);
    assert!(!Senses::observe(usize::MAX, &vec![usize::MAX - 1], &found, &found).inventory_full);
    assert!(
        Senses::observe(usize::MAX, &vec![usize::MAX, usize::MAX], &found, &found).inventory_full
    );
    assert!(
        Senses::observe(usize::MAX, &vec![1, usize::MAX - 1, 7], &found, &found).inventory_full
    );
}

#[test]
fn flags_tell_of_what_cannot_be_reached() {
    let observed = Senses::observe(20, &vec![1], &Some(7u8), &None);
    assert_eq!(observed, senses(false, false, true));
    let observed = Senses::observe(20, &vec![1], &None, &Some(7u8));
    assert_eq!(observed, senses(false, true, false));
    let observed = Senses::observe(1, &vec![1], &None::<u8>, &None);
    assert_eq!(observed, senses(true, true, true));
}

#[test]
fn brain_topology_is_three_four_three() {
    let layers = Brain::<f32>::topology();
    assert_eq!(layers.len(), 3);
    assert_eq!(layers[0].neurons, 3);
    assert_eq!(layers[1].neurons, 4);
    assert_eq!(layers[1].activation_function, ActivationFunction::ReLU);
    assert_eq!(layers[2].neurons, 3);
    assert_eq!(layers[2].activation_function, ActivationFunction::TANH);
}

#[test]
fn random_brain_has_the_brain_topology() {
    let brain = Brain::random(&reals(), &uniform);
    assert_eq!(brain.network.layers.len(), 2);
    assert_eq!(brain.network.layers[0].neurons.len(), 4);
    assert!(brain.network.layers[0].neurons.iter().all(|n| n.weights.len() == 3));
    assert!(brain.network.layers[0]
        .neurons
        .iter()
        .all(|n| n.activation_function == ActivationFunction::ReLU));
    assert_eq!(brain.network.layers[1].neurons.len(), 3);
    assert!(brain.network.layers[1].neurons.iter().all(|n| n.weights.len() == 4));
    assert!(brain.network.layers[1]
        .neurons
        .iter()
        .all(|n| n.activation_function == ActivationFunction::TANH));
}

#[test]
fn from_network_keeps_the_network() {
    let network = Network {
        layers: vec![Layer {
            neurons: vec![Neuron {
                bias: 0.5f32,
                weights: vec![1.0, 2.0, 3.0],
                activation_function: ActivationFunction::TANH,
            }],
        }],
    };
    let brain = Brain::from_network(network.clone());
    assert_eq!(brain.network, network);
    assert_eq!(brain.clone(), brain);
}

#[test]
fn senses_become_inputs_and_outputs_are_raised_by_one() {
    let seen: RefCell<Vec<Vec<f32>>> = RefCell::new(Vec::new());
    let lottery = Lottery {
        build: |weights: &Vec<f32>| {
            seen.borrow_mut().push(weights.clone());
            Some(())
        },
        pick: |_: &()| 2usize,
    };
    let brain = mirror(2.0, ActivationFunction::ReLU);
    for (full, target, deposit) in [
        (false, false, false),
        (true, false, false),
        (false, true, false),
        (false, false, true),
        (true, true, true),
    ] {
        let decision = brain.decide(&senses(full, target, deposit), &reals(), &lottery);
        assert_eq!(decision, Ok(BrainAction::Explore));
    }
    assert_eq!(
        *seen.borrow(),
        vec![
            vec![1.0, 1.0, 1.0],
            vec![3.0, 1.0, 1.0],
            vec![1.0, 3.0, 1.0],
            vec![1.0, 1.0, 3.0],
            vec![3.0, 3.0, 3.0],
        ]
    );
}

#[test]
fn the_index_drawn_decides() {
    let brain = biased(&[0.0, 0.0, 0.0]);
    let expected = [ACQUIRE, DEPOSIT, BrainAction::Explore];
    for index in 0..3usize {
        let lottery = Lottery { build: |_: &Vec<f32>| Some(()), pick: |_: &()| index };
        let decision = brain.decide(&senses(false, true, false), &reals(), &lottery);
        assert_eq!(decision, Ok(expected[index]));
    }
}

#[test]
fn an_output_of_minus_one_is_never_chosen() {
    // tanh(-50) is -1 in single precision, so the raised output weighs nothing
    let brain = biased(&[-50.0, 0.0, -50.0]);
    for _ in 0..200 {
        let decision = brain.decide(&senses(false, false, false), &reals(), &weighted());
        assert_eq!(decision, Ok(DEPOSIT));
    }
}

#[test]
fn larger_outputs_are_chosen_more_often() {
    let brain = biased(&[2.0, -2.0, -50.0]);
    let mut acquired = 0;
    for _ in 0..2_000 {
        match brain.decide(&senses(false, false, false), &reals(), &weighted()) {
            Ok(BrainAction::GetContent(_)) => acquired += 1,
            Ok(BrainAction::PutContent(_, _)) => {}
            other => panic!("{:?}", other),
        }
    }
    assert!(acquired > 1_800 && acquired < 2_000);
}

#[test]
fn no_weight_at_all_leaves_the_brain_undecided() {
    let brain = biased(&[-50.0, -50.0, -50.0]);
    let decision = brain.decide(&senses(true, false, false), &reals(), &weighted());
    assert_eq!(decision, Err(ThinkError::Undecided));
}

#[test]
fn a_brain_that_takes_other_than_three_inputs_complains() {
    let brain = Brain::from_network(Network {
        layers: vec![Layer {
            neurons: vec![Neuron {
                bias: 0.0f32,
                weights: vec![1.0, 1.0],
                activation_function: ActivationFunction::TANH,
            }],
        }],
    });
    let decision = brain.decide(&senses(true, false, false), &reals(), &weighted());
    assert_eq!(
        decision,
        Err(ThinkError::Dimension(DimensionMismatch { weights: 2, inputs: 3 }))
    );
}

#[test]
fn an_index_beyond_the_intents_is_refused() {
    let brain = biased(&[0.0, 0.0, 0.0, 0.0, 0.0]);
    let lottery = Lottery { build: |_: &Vec<f32>| Some(()), pick: |_: &()| 4usize };
    let decision = brain.decide(&senses(true, false, false), &reals(), &lottery);
    assert_eq!(decision, Err(ThinkError::UnknownAction(4)));
}

#[test]
fn thinking_asks_the_resolver_three_times() {
    let asked: RefCell<Vec<Request>> = RefCell::new(Vec::new());
    let resolve = |request: Request| {
        asked.borrow_mut().push(request);
        Some(asked.borrow().len())
    };
    let lottery = Lottery { build: |_: &Vec<f32>| Some(()), pick: |_: &()| 1usize };
    let brain = biased(&[0.0, 0.0, 0.0]);
    let step = brain.think_action(20, &vec![3], &resolve, &reals(), &lottery);
    assert_eq!(step, Ok(Some(3)));
    assert_eq!(
        *asked.borrow(),
        vec![Senses::acquire_probe(), Senses::deposit_probe(), DEPOSIT.request()]
    );
}

#[test]
fn thinking_senses_what_the_probes_found() {
    let seen: RefCell<Vec<f32>> = RefCell::new(Vec::new());
    let lottery = Lottery {
        build: |weights: &Vec<f32>| {
            *seen.borrow_mut() = weights.clone();
            Some(())
        },
        pick: |_: &()| 0usize,
    };
    let brain = mirror(1.0, ActivationFunction::ReLU);
    // garbage is in reach, a bin is not, and the storage is full
    let resolve = |request: Request| match request.target {
        Content::Garbage(_) => Some('g'),
        _ => None,
    };
    let step = brain.think_action(4, &vec![1, 3], &resolve, &reals(), &lottery);
    assert_eq!(step, Ok(Some('g')));
    assert_eq!(*seen.borrow(), vec![2.0, 1.0, 2.0]);
    // nothing is in reach and the storage has room
    let resolve = |_: Request| None::<char>;
    let step = brain.think_action(4, &vec![1, 2], &resolve, &reals(), &lottery);
    assert_eq!(step, Ok(None));
    assert_eq!(*seen.borrow(), vec![1.0, 2.0, 2.0]);
}

#[test]
fn thinking_hands_on_the_complaint() {
    let resolve = |_: Request| Some(0u8);
    let brain = biased(&[-50.0, -50.0, -50.0]);
    let step = brain.think_action(4, &vec![1], &resolve, &reals(), &weighted());
    assert_eq!(step, Err(ThinkError::Undecided));
}
