//! Feed-forward networks: their shape, their evaluation and their
//! recombination.

use crate::arithmetic::Arithmetic;
use crate::chance::Rate;
use vstd::prelude::*;

verus! {

/// The function that a neuron applies to its weighted input.
#[derive(Clone, Copy, PartialEq, Eq, Structural, Debug)]
pub enum ActivationFunction {
    /// The larger of zero and the input.
    ReLU,
    /// The hyperbolic tangent of the input.
    TANH,
}

/// One entry of a topology: the width of a layer and the activation of its
/// neurons. In the first entry only the width counts: it is the number of
/// inputs of the network.
#[derive(Clone, Copy, PartialEq, Eq, Structural, Debug)]
pub struct LayerTopology {
    pub neurons: usize,
    pub activation_function: ActivationFunction,
}

/// A neuron was given a number of inputs other than its number of weights.
#[derive(Clone, Copy, PartialEq, Eq, Structural, Debug)]
pub struct DimensionMismatch {
    /// The number of weights of the neuron.
    pub weights: usize,
    /// The number of inputs it was given.
    pub inputs: usize,
}

/// A neuron: one weight for each input, a bias, and an activation.
#[derive(Debug, PartialEq)]
pub struct Neuron<G> {
    pub bias: G,
    pub weights: Vec<G>,
    pub activation_function: ActivationFunction,
}

/// A layer: neurons that all read the same inputs.
#[derive(Debug, PartialEq)]
pub struct Layer<G> {
    pub neurons: Vec<Neuron<G>>,
}

/// A network: layers in the order in which a signal passes them.
#[derive(Debug, PartialEq)]
pub struct Network<G> {
    pub layers: Vec<Layer<G>>,
}

/// What a neuron is, as a mathematical value.
pub struct NeuronView<G> {
    pub bias: G,
    pub weights: Seq<G>,
    pub activation: ActivationFunction,
}

/// What a layer is, as a mathematical value: its neurons in their order.
pub type LayerView<G> = Seq<NeuronView<G>>;

/// What a network is, as a mathematical value: its layers in their order.
pub type NetworkView<G> = Seq<LayerView<G>>;

impl<G> View for Neuron<G> {
    type V = NeuronView<G>;

    open spec fn view(&self) -> NeuronView<G> {
        NeuronView {
            bias: self.bias,
            weights: self.weights@,
            activation: self.activation_function,
        }
    }
}

impl<G> View for Layer<G> {
    type V = LayerView<G>;

    open spec fn view(&self) -> LayerView<G> {
        Seq::new(self.neurons@.len(), |j: int| self.neurons@[j]@)
    }
}

impl<G> View for Network<G> {
    type V = NetworkView<G>;

    open spec fn view(&self) -> NetworkView<G> {
        Seq::new(self.layers@.len(), |i: int| self.layers@[i]@)
    }
}

impl<G: Copy> Clone for Neuron<G> {
    /// A copy of the neuron, gene for gene.
    fn clone(&self) -> (copy: Self)
        ensures
            copy@ == self@,
    {
        let mut weights: Vec<G> = Vec::new();
        let mut k: usize = 0;
        while k < self.weights.len()
            invariant
                k <= self.weights.len(),
                weights.len() == k,
                forall|m: int| 0 <= m < k ==> weights@[m] == self.weights@[m],
            decreases self.weights.len() - k,
        {
            weights.push(self.weights[k]);
            k += 1;
        }
        assert(weights@ =~= self.weights@);
        Neuron { bias: self.bias, weights, activation_function: self.activation_function }
    }
}

impl<G: Copy> Clone for Layer<G> {
    /// A copy of the layer, neuron for neuron.
    fn clone(&self) -> (copy: Self)
        ensures
            copy@ == self@,
    {
        let mut neurons: Vec<Neuron<G>> = Vec::new();
        let mut j: usize = 0;
        while j < self.neurons.len()
            invariant
                j <= self.neurons.len(),
                neurons.len() == j,
                forall|m: int| 0 <= m < j ==> neurons@[m]@ == self.neurons@[m]@,
            decreases self.neurons.len() - j,
        {
            neurons.push(self.neurons[j].clone());
            j += 1;
        }
        let copy = Layer { neurons };
        assert(copy@ =~= self@);
        copy
    }
}

impl<G: Copy> Clone for Network<G> {
    /// A copy of the network, layer for layer.
    fn clone(&self) -> (copy: Self)
        ensures
            copy@ == self@,
    {
        let mut layers: Vec<Layer<G>> = Vec::new();
        let mut i: usize = 0;
        while i < self.layers.len()
            invariant
                i <= self.layers.len(),
                layers.len() == i,
                forall|m: int| 0 <= m < i ==> layers@[m]@ == self.layers@[m]@,
            decreases self.layers.len() - i,
        {
            layers.push(self.layers[i].clone());
            i += 1;
        }
        let copy = Network { layers };
        assert(copy@ =~= self@);
        copy
    }
}

/// `terms[i]` is a possible value of the product `inputs[i] * weights[i]`.
pub open spec fn is_term<G, A, M, X, T>(
    arith: &Arithmetic<G, A, M, X, T>,
    inputs: Seq<G>,
    weights: Seq<G>,
    terms: Seq<G>,
    i: int,
) -> bool where A: Fn(G, G) -> G, M: Fn(G, G) -> G, X: Fn(G, G) -> G, T: Fn(G) -> G {
    arith.mul.ensures((inputs[i], weights[i]), terms[i])
}

/// `partial[i + 1]` is a possible value of the sum `partial[i] + terms[i]`.
pub open spec fn is_partial<G, A, M, X, T>(
    arith: &Arithmetic<G, A, M, X, T>,
    terms: Seq<G>,
    partial: Seq<G>,
    i: int,
) -> bool where A: Fn(G, G) -> G, M: Fn(G, G) -> G, X: Fn(G, G) -> G, T: Fn(G) -> G {
    arith.add.ensures((partial[i], terms[i]), partial[i + 1])
}

/// `terms` are the products of each input with its weight, and `partial`
/// the sums of those products as they are added up from zero in the order
/// of the inputs: `partial[i]` is the sum of the first `i` of them.
///
/// In a proof, state [`is_term`] and [`is_partial`] at an index to learn of
/// the product and the sum there.
pub open spec fn accumulates<G, A, M, X, T>(
    arith: &Arithmetic<G, A, M, X, T>,
    inputs: Seq<G>,
    weights: Seq<G>,
    terms: Seq<G>,
    partial: Seq<G>,
) -> bool where A: Fn(G, G) -> G, M: Fn(G, G) -> G, X: Fn(G, G) -> G, T: Fn(G) -> G {
    &&& terms.len() == inputs.len()
    &&& partial.len() == inputs.len() + 1
    &&& partial[0] == arith.zero
    &&& forall|i: int|
        0 <= i < inputs.len() ==> #[trigger] is_term(arith, inputs, weights, terms, i)
    &&& forall|i: int| 0 <= i < inputs.len() ==> #[trigger] is_partial(arith, terms, partial, i)
}

/// `out` is a possible value of the activation of `level`: the larger of
/// `level` and zero for the rectifier, else the hyperbolic tangent of
/// `level`.
pub open spec fn activates<G, A, M, X, T>(
    arith: &Arithmetic<G, A, M, X, T>,
    activation: ActivationFunction,
    level: G,
    out: G,
) -> bool where A: Fn(G, G) -> G, M: Fn(G, G) -> G, X: Fn(G, G) -> G, T: Fn(G) -> G {
    match activation {
        ActivationFunction::ReLU => arith.max.ensures((level, arith.zero), out),
        ActivationFunction::TANH => arith.tanh.ensures((level,), out),
    }
}

/// `out` is a possible output of the neuron on as many inputs as it has
/// weights: the activation of `level`, which is the bias plus the weighted
/// sum of the inputs, the last of `partial`.
pub open spec fn responds_by<G, A, M, X, T>(
    arith: &Arithmetic<G, A, M, X, T>,
    neuron: NeuronView<G>,
    inputs: Seq<G>,
    terms: Seq<G>,
    partial: Seq<G>,
    level: G,
    out: G,
) -> bool where A: Fn(G, G) -> G, M: Fn(G, G) -> G, X: Fn(G, G) -> G, T: Fn(G) -> G {
    &&& accumulates(arith, inputs, neuron.weights, terms, partial)
    &&& arith.add.ensures((neuron.bias, partial[inputs.len() as int]), level)
    &&& activates(arith, neuron.activation, level, out)
}

/// `out` is a possible output of the neuron on as many inputs as it has
/// weights: the activation of the bias plus the weighted sum of the inputs.
///
/// In a proof, [`response_of`] names the products, the sums and the level
/// that [`responds_by`] speaks of.
pub open spec fn responds<G, A, M, X, T>(
    arith: &Arithmetic<G, A, M, X, T>,
    neuron: NeuronView<G>,
    inputs: Seq<G>,
    out: G,
) -> bool where A: Fn(G, G) -> G, M: Fn(G, G) -> G, X: Fn(G, G) -> G, T: Fn(G) -> G {
    exists|terms: Seq<G>, partial: Seq<G>, level: G|
        responds_by(arith, neuron, inputs, terms, partial, level, out)
}

/// `j` is the first neuron of the layer whose number of weights is not
/// `width`.
pub open spec fn first_misfit<G>(layer: LayerView<G>, width: nat, j: int) -> bool {
    &&& 0 <= j < layer.len()
    &&& layer[j].weights.len() != width
    &&& forall|k: int| 0 <= k < j ==> (#[trigger] layer[k]).weights.len() == width
}

/// The mismatch at the first neuron of the layer that `width` inputs do not
/// fit, if there is one.
pub open spec fn layer_fault<G>(layer: LayerView<G>, width: nat) -> Option<
    DimensionMismatch,
> {
    if exists|j: int| first_misfit(layer, width, j) {
        let j = choose|j: int| first_misfit(layer, width, j);
        Some(DimensionMismatch { weights: layer[j].weights.len() as usize, inputs: width as usize })
    } else {
        None
    }
}

/// `outputs` are possible outputs of the layer's neurons, in their order, on
/// the same inputs.
pub open spec fn layer_responds<G, A, M, X, T>(
    arith: &Arithmetic<G, A, M, X, T>,
    layer: LayerView<G>,
    inputs: Seq<G>,
    outputs: Seq<G>,
) -> bool where A: Fn(G, G) -> G, M: Fn(G, G) -> G, X: Fn(G, G) -> G, T: Fn(G) -> G {
    &&& outputs.len() == layer.len()
    &&& forall|j: int|
        0 <= j < layer.len() ==> responds(arith, layer[j], inputs, #[trigger] outputs[j])
}

/// The number of values that reach layer `i` of a network with `width`
/// inputs: as many as the layer before it has neurons.
pub open spec fn width_at<G>(layers: NetworkView<G>, width: nat, i: int) -> nat {
    if i <= 0 {
        width
    } else {
        layers[i - 1].len()
    }
}

/// Layer `i` of a network with `width` inputs has a neuron that the values
/// that reach the layer do not fit.
pub open spec fn misfits_at<G>(layers: NetworkView<G>, width: nat, i: int) -> bool {
    layer_fault(layers[i], width_at(layers, width, i)) is Some
}

/// `i` is the first layer of the network that the values that reach it do
/// not fit.
pub open spec fn first_fault<G>(layers: NetworkView<G>, width: nat, i: int) -> bool {
    &&& 0 <= i < layers.len()
    &&& misfits_at(layers, width, i)
    &&& forall|m: int| 0 <= m < i ==> !#[trigger] misfits_at(layers, width, m)
}

/// The mismatch that ends the evaluation of the network on `width` inputs,
/// if there is one: that of the first layer that has one.
pub open spec fn network_fault<G>(layers: NetworkView<G>, width: nat) -> Option<
    DimensionMismatch,
> {
    if exists|i: int| first_fault(layers, width, i) {
        let i = choose|i: int| first_fault(layers, width, i);
        layer_fault(layers[i], width_at(layers, width, i))
    } else {
        None
    }
}

/// Layer `i` turns `signals[i]` into `signals[i + 1]`.
pub open spec fn is_signal<G, A, M, X, T>(
    arith: &Arithmetic<G, A, M, X, T>,
    layers: NetworkView<G>,
    signals: Seq<Seq<G>>,
    i: int,
) -> bool where A: Fn(G, G) -> G, M: Fn(G, G) -> G, X: Fn(G, G) -> G, T: Fn(G) -> G {
    layer_responds(arith, layers[i], signals[i], signals[i + 1])
}

/// `signals` are the values that pass through the network on the given
/// inputs: the inputs first, then what each layer makes of what the layer
/// before it gave.
///
/// In a proof, state [`is_signal`] at a layer to learn of what it gave.
pub open spec fn passes<G, A, M, X, T>(
    arith: &Arithmetic<G, A, M, X, T>,
    layers: NetworkView<G>,
    inputs: Seq<G>,
    signals: Seq<Seq<G>>,
) -> bool where A: Fn(G, G) -> G, M: Fn(G, G) -> G, X: Fn(G, G) -> G, T: Fn(G) -> G {
    &&& signals.len() == layers.len() + 1
    &&& signals[0] == inputs
    &&& forall|i: int| 0 <= i < layers.len() ==> #[trigger] is_signal(arith, layers, signals, i)
}

/// `output` is a possible output of the network on the inputs.
///
/// In a proof, [`signals_of`] names the signals that [`passes`] speaks of.
pub open spec fn reaches<G, A, M, X, T>(
    arith: &Arithmetic<G, A, M, X, T>,
    layers: NetworkView<G>,
    inputs: Seq<G>,
    output: Seq<G>,
) -> bool where A: Fn(G, G) -> G, M: Fn(G, G) -> G, X: Fn(G, G) -> G, T: Fn(G) -> G {
    exists|signals: Seq<Seq<G>>|
        #![trigger passes(arith, layers, inputs, signals)]
        passes(arith, layers, inputs, signals) && output == signals[layers.len() as int]
}

impl<G: Copy> Neuron<G> {
    /// Evaluates the neuron on the inputs.
    ///
    /// The products of each input with its weight are added up from zero in
    /// the order of the inputs; the bias is added to that sum; the activation
    /// is applied to the result. Inputs that are not as many as the weights
    /// are rejected.
    pub fn propagate<A, M, X, T>(
        &self,
        inputs: &[G],
        arith: &Arithmetic<G, A, M, X, T>,
    ) -> (out: Result<G, DimensionMismatch>) where
        A: Fn(G, G) -> G,
        M: Fn(G, G) -> G,
        X: Fn(G, G) -> G,
        T: Fn(G) -> G,

        requires
            arith.lawful(),
        ensures
            self@.weights.len() == inputs@.len() ==> (out matches Ok(value) && responds(
                arith,
                self@,
                inputs@,
                value,
            )),
            self@.weights.len() != inputs@.len() ==> out == Err::<G, DimensionMismatch>(
                DimensionMismatch { weights: self.weights.len(), inputs: inputs.len() },
            ),
    {
        if self.weights.len() != inputs.len() {
            return Err(DimensionMismatch { weights: self.weights.len(), inputs: inputs.len() });
        }
        let mut output = arith.zero;
        let ghost mut terms: Seq<G> = Seq::empty();
        let ghost mut partial: Seq<G> = seq![output];
        let mut i: usize = 0;
        while i < inputs.len()
            invariant
                arith.lawful(),
                i <= inputs.len(),
                self.weights.len() == inputs.len(),
                terms.len() == i,
                partial.len() == i + 1,
                partial[0] == arith.zero,
                partial[i as int] == output,
                forall|m: int|
                    0 <= m < i ==> #[trigger] is_term(arith, inputs@, self.weights@, terms, m),
                forall|m: int| 0 <= m < i ==> #[trigger] is_partial(arith, terms, partial, m),
            decreases inputs.len() - i,
        {
            let term = (arith.mul)(inputs[i], self.weights[i]);
            let next = (arith.add)(output, term);
            proof {
                let longer_terms = terms.push(term);
                let longer_partial = partial.push(next);
                assert forall|m: int| 0 <= m < i + 1 implies #[trigger] is_term(
                    arith,
                    inputs@,
                    self.weights@,
                    longer_terms,
                    m,
                ) by {
                    if m < i {
                        assert(is_term(arith, inputs@, self.weights@, terms, m));
                    }
                }
                assert forall|m: int| 0 <= m < i + 1 implies #[trigger] is_partial(
                    arith,
                    longer_terms,
                    longer_partial,
                    m,
                ) by {
                    if m < i {
                        assert(is_partial(arith, terms, partial, m));
                    }
                }
                terms = longer_terms;
                partial = longer_partial;
            }
            output = next;
            i += 1;
        }
        let level = (arith.add)(self.bias, output);
        let value = match self.activation_function {
            ActivationFunction::ReLU => (arith.max)(level, arith.zero),
            ActivationFunction::TANH => (arith.tanh)(level),
        };
        assert(responds_by(arith, self@, inputs@, terms, partial, level, value));
        Ok(value)
    }
}

impl<G: Copy> Layer<G> {
    /// Evaluates every neuron of the layer, in order, on the same inputs.
    ///
    /// The first neuron that the inputs do not fit ends the evaluation with
    /// its mismatch.
    pub fn propagate<A, M, X, T>(
        &self,
        inputs: Vec<G>,
        arith: &Arithmetic<G, A, M, X, T>,
    ) -> (out: Result<Vec<G>, DimensionMismatch>) where
        A: Fn(G, G) -> G,
        M: Fn(G, G) -> G,
        X: Fn(G, G) -> G,
        T: Fn(G) -> G,

        requires
            arith.lawful(),
        ensures
            match layer_fault(self@, inputs@.len()) {
                Some(mismatch) => out == Err::<Vec<G>, DimensionMismatch>(mismatch),
                None => out matches Ok(v) && layer_responds(arith, self@, inputs@, v@),
            },
    {
        let mut outputs: Vec<G> = Vec::new();
        let mut j: usize = 0;
        while j < self.neurons.len()
            invariant
                arith.lawful(),
                j <= self.neurons.len(),
                outputs.len() == j,
                forall|k: int| 0 <= k < j ==> (#[trigger] self@[k]).weights.len() == inputs.len(),
                forall|k: int|
                    0 <= k < j ==> responds(arith, self@[k], inputs@, #[trigger] outputs@[k]),
            decreases self.neurons.len() - j,
        {
            match self.neurons[j].propagate(inputs.as_slice(), arith) {
                Ok(value) => {
                    outputs.push(value);
                },
                Err(mismatch) => {
                    assert(first_misfit(self@, inputs@.len(), j as int));
                    return Err(mismatch);
                },
            }
            j += 1;
        }
        Ok(outputs)
    }
}

impl<G: Copy> Network<G> {
    /// Evaluates the network: the inputs pass through the layers in their
    /// order, each layer reading what the one before it gave.
    ///
    /// The evaluation succeeds exactly when every neuron has as many weights
    /// as values reach it, which the shape of the network and the number of
    /// inputs decide. Otherwise it ends with the mismatch at the first such
    /// neuron of the first such layer. There are as many outputs as the last
    /// layer has neurons.
    pub fn propagate<A, M, X, T>(
        &self,
        inputs: Vec<G>,
        arith: &Arithmetic<G, A, M, X, T>,
    ) -> (out: Result<Vec<G>, DimensionMismatch>) where
        A: Fn(G, G) -> G,
        M: Fn(G, G) -> G,
        X: Fn(G, G) -> G,
        T: Fn(G) -> G,

        requires
            arith.lawful(),
        ensures
            match network_fault(self@, inputs@.len()) {
                Some(mismatch) => out == Err::<Vec<G>, DimensionMismatch>(mismatch),
                None => out matches Ok(v) && reaches(arith, self@, inputs@, v@),
            },
            out matches Ok(v) ==> v@.len() == width_at(self@, inputs@.len(), self@.len() as int),
    {
        let mut signal = inputs;
        let ghost mut signals: Seq<Seq<G>> = seq![signal@];
        let mut i: usize = 0;
        while i < self.layers.len()
            invariant
                arith.lawful(),
                i <= self.layers.len(),
                signals.len() == i + 1,
                signals[0] == inputs@,
                signals[i as int] == signal@,
                signal@.len() == width_at(self@, inputs@.len(), i as int),
                forall|m: int| 0 <= m < i ==> !#[trigger] misfits_at(self@, inputs@.len(), m),
                forall|m: int| 0 <= m < i ==> #[trigger] is_signal(arith, self@, signals, m),
            decreases self.layers.len() - i,
        {
            match self.layers[i].propagate(signal, arith) {
                Ok(next) => {
                    proof {
                        let longer = signals.push(next@);
                        assert forall|m: int| 0 <= m < i + 1 implies #[trigger] is_signal(
                            arith,
                            self@,
                            longer,
                            m,
                        ) by {
                            if m < i {
                                assert(is_signal(arith, self@, signals, m));
                            }
                        }
                        assert(!misfits_at(self@, inputs@.len(), i as int));
                        signals = longer;
                    }
                    signal = next;
                },
                Err(mismatch) => {
                    assert(first_fault(self@, inputs@.len(), i as int));
                    return Err(mismatch);
                },
            }
            i += 1;
        }
        proof {
            assert(passes(arith, self@, inputs@, signals));
            assert forall|k: int| !first_fault(self@, inputs@.len(), k) by {
                if 0 <= k < self@.len() {
                    assert(!misfits_at(self@, inputs@.len(), k));
                }
            }
        }
        Ok(signal)
    }
}

/// The number of weights of each neuron of a layer.
pub open spec fn layer_shape<G>(layer: LayerView<G>) -> Seq<nat> {
    Seq::new(layer.len(), |j: int| layer[j].weights.len())
}

/// The shape of a network: for each layer, the number of weights of each of
/// its neurons.
pub open spec fn network_shape<G>(layers: NetworkView<G>) -> Seq<Seq<nat>> {
    Seq::new(layers.len(), |i: int| layer_shape(layers[i]))
}

/// The network is laid out as the topology says: one layer for each entry
/// after the first, as wide as the entry says and with its activation, each
/// neuron with one weight for each neuron of the entry before.
pub open spec fn conforms<G>(layers: NetworkView<G>, topology: Seq<LayerTopology>) -> bool {
    &&& layers.len() + 1 == topology.len()
    &&& forall|i: int|
        0 <= i < layers.len() ==> (#[trigger] layers[i]).len() == topology[i + 1].neurons
    &&& forall|i: int, j: int|
        0 <= i < layers.len() && 0 <= j < layers[i].len() ==> {
            &&& (#[trigger] layers[i][j]).weights.len() == topology[i].neurons
            &&& layers[i][j].activation == topology[i + 1].activation_function
        }
}

/// The network is laid out as the topology says, and each of its genes is a
/// draw of `spread` for the unit.
pub open spec fn fresh<G, A, M, X, T, S>(
    arith: &Arithmetic<G, A, M, X, T>,
    spread: &S,
    layers: NetworkView<G>,
    topology: Seq<LayerTopology>,
) -> bool where
    A: Fn(G, G) -> G,
    M: Fn(G, G) -> G,
    X: Fn(G, G) -> G,
    T: Fn(G) -> G,
    S: Fn(G) -> G,
 {
    &&& conforms(layers, topology)
    &&& forall|i: int, j: int|
        0 <= i < layers.len() && 0 <= j < layers[i].len() ==> drawn(
            arith,
            spread,
            #[trigger] layers[i][j],
        )
}

/// `gene` is a possible result of recombining `first` and `second`: one of
/// the two, picked by a fair coin, and, where the mutation hits, that one
/// plus an offset drawn by `spread` for `amount`.
///
/// A rate of zero leaves only the first kind, a rate of one only the second.
pub open spec fn recombined<G, A, M, X, T, S>(
    arith: &Arithmetic<G, A, M, X, T>,
    spread: &S,
    first: G,
    second: G,
    rate: Rate,
    amount: G,
    gene: G,
) -> bool where
    A: Fn(G, G) -> G,
    M: Fn(G, G) -> G,
    X: Fn(G, G) -> G,
    T: Fn(G) -> G,
    S: Fn(G) -> G,
 {
    ||| !rate.always() && (gene == first || gene == second)
    ||| !rate.never() && exists|offset: G|
        #![trigger spread.ensures((amount,), offset)]
        spread.ensures((amount,), offset) && (arith.add.ensures((first, offset), gene)
            || arith.add.ensures((second, offset), gene))
}

/// `child` is a possible offspring of the neurons `first` and `second`: it
/// has the activation of `first`, as many weights as both, and each of its
/// genes recombines the two genes in its place.
pub open spec fn neuron_offspring<G, A, M, X, T, S>(
    arith: &Arithmetic<G, A, M, X, T>,
    spread: &S,
    first: NeuronView<G>,
    second: NeuronView<G>,
    rate: Rate,
    amount: G,
    child: NeuronView<G>,
) -> bool where
    A: Fn(G, G) -> G,
    M: Fn(G, G) -> G,
    X: Fn(G, G) -> G,
    T: Fn(G) -> G,
    S: Fn(G) -> G,
 {
    &&& child.activation == first.activation
    &&& child.weights.len() == first.weights.len()
    &&& recombined(arith, spread, first.bias, second.bias, rate, amount, child.bias)
    &&& forall|k: int|
        0 <= k < child.weights.len() ==> recombined(
            arith,
            spread,
            first.weights[k],
            second.weights[k],
            rate,
            amount,
            #[trigger] child.weights[k],
        )
}

/// `child` is a possible offspring of the layers `first` and `second`,
/// neuron by neuron.
pub open spec fn layer_offspring<G, A, M, X, T, S>(
    arith: &Arithmetic<G, A, M, X, T>,
    spread: &S,
    first: LayerView<G>,
    second: LayerView<G>,
    rate: Rate,
    amount: G,
    child: LayerView<G>,
) -> bool where
    A: Fn(G, G) -> G,
    M: Fn(G, G) -> G,
    X: Fn(G, G) -> G,
    T: Fn(G) -> G,
    S: Fn(G) -> G,
 {
    &&& child.len() == first.len()
    &&& forall|j: int|
        0 <= j < child.len() ==> neuron_offspring(
            arith,
            spread,
            first[j],
            second[j],
            rate,
            amount,
            #[trigger] child[j],
        )
}

/// `child` is a possible offspring of the networks `first` and `second`,
/// layer by layer.
pub open spec fn network_offspring<G, A, M, X, T, S>(
    arith: &Arithmetic<G, A, M, X, T>,
    spread: &S,
    first: NetworkView<G>,
    second: NetworkView<G>,
    rate: Rate,
    amount: G,
    child: NetworkView<G>,
) -> bool where
    A: Fn(G, G) -> G,
    M: Fn(G, G) -> G,
    X: Fn(G, G) -> G,
    T: Fn(G) -> G,
    S: Fn(G) -> G,
 {
    &&& child.len() == first.len()
    &&& forall|i: int|
        0 <= i < child.len() ==> layer_offspring(
            arith,
            spread,
            first[i],
            second[i],
            rate,
            amount,
            #[trigger] child[i],
        )
}

/// Recombines two genes into one.
///
/// A fair coin picks `val1` or `val2`. Then, with probability
/// `mutation_rate`, an offset that `spread` draws for `mutation` is added to
/// the pick; otherwise the pick is returned as it is.
pub fn mutate_value<G: Copy, A, M, X, T, S>(
    val1: G,
    val2: G,
    mutation_rate: Rate,
    mutation: G,
    arith: &Arithmetic<G, A, M, X, T>,
    spread: &S,
) -> (gene: G) where
    A: Fn(G, G) -> G,
    M: Fn(G, G) -> G,
    X: Fn(G, G) -> G,
    T: Fn(G) -> G,
    S: Fn(G) -> G,

    requires
        arith.lawful(),
        spread.requires((mutation,)),
    ensures
        recombined(arith, spread, val1, val2, mutation_rate, mutation, gene),
        mutation_rate.never() ==> gene == val1 || gene == val2,
{
    let val = if Rate::half().draw() {
        val1
    } else {
        val2
    };
    if mutation_rate.draw() {
        let offset = spread(mutation);
        (arith.add)(val, offset)
    } else {
        val
    }
}

impl<G: Copy> Neuron<G> {
    /// Breeds a neuron from this one and `other`: the bias and each weight
    /// are recombined with the gene in the same place of `other`.
    pub fn mutate<A, M, X, T, S>(
        &self,
        other: &Self,
        mutation_rate: Rate,
        mutation: G,
        arith: &Arithmetic<G, A, M, X, T>,
        spread: &S,
    ) -> (child: Self) where
        A: Fn(G, G) -> G,
        M: Fn(G, G) -> G,
        X: Fn(G, G) -> G,
        T: Fn(G) -> G,
        S: Fn(G) -> G,

        requires
            arith.lawful(),
            spread.requires((mutation,)),
            self@.weights.len() == other@.weights.len(),
        ensures
            neuron_offspring(arith, spread, self@, other@, mutation_rate, mutation, child@),
    {
        let new_b = mutate_value(self.bias, other.bias, mutation_rate, mutation, arith, spread);
        let mut new_w: Vec<G> = Vec::new();
        let mut k: usize = 0;
        while k < self.weights.len()
            invariant
                arith.lawful(),
                spread.requires((mutation,)),
                self.weights.len() == other.weights.len(),
                k <= self.weights.len(),
                new_w.len() == k,
                forall|m: int|
                    0 <= m < k ==> recombined(
                        arith,
                        spread,
                        self.weights@[m],
                        other.weights@[m],
                        mutation_rate,
                        mutation,
                        #[trigger] new_w@[m],
                    ),
            decreases self.weights.len() - k,
        {
            let gene = mutate_value(
                self.weights[k],
                other.weights[k],
                mutation_rate,
                mutation,
                arith,
                spread,
            );
            new_w.push(gene);
            k += 1;
        }
        Neuron { bias: new_b, weights: new_w, activation_function: self.activation_function }
    }

    /// A neuron with `input_size` weights and the given activation, its bias
    /// and every weight drawn by `spread` for the unit.
    pub fn random<A, M, X, T, S>(
        input_size: usize,
        activation_function: ActivationFunction,
        arith: &Arithmetic<G, A, M, X, T>,
        spread: &S,
    ) -> (neuron: Self) where
        A: Fn(G, G) -> G,
        M: Fn(G, G) -> G,
        X: Fn(G, G) -> G,
        T: Fn(G) -> G,
        S: Fn(G) -> G,

        requires
            spread.requires((arith.one,)),
        ensures
            neuron@.weights.len() == input_size,
            neuron@.activation == activation_function,
            drawn(arith, spread, neuron@),
    {
        let bias = spread(arith.one);
        let mut weights: Vec<G> = Vec::new();
        let mut k: usize = 0;
        while k < input_size
            invariant
                spread.requires((arith.one,)),
                k <= input_size,
                weights.len() == k,
                forall|m: int| 0 <= m < k ==> spread.ensures((arith.one,), #[trigger] weights@[m]),
            decreases input_size - k,
        {
            weights.push(spread(arith.one));
            k += 1;
        }
        Neuron { bias, weights, activation_function }
    }
}

/// The bias and every weight of the neuron is a draw of `spread` for the
/// unit.
pub open spec fn drawn<G, A, M, X, T, S>(
    arith: &Arithmetic<G, A, M, X, T>,
    spread: &S,
    neuron: NeuronView<G>,
) -> bool where
    A: Fn(G, G) -> G,
    M: Fn(G, G) -> G,
    X: Fn(G, G) -> G,
    T: Fn(G) -> G,
    S: Fn(G) -> G,
 {
    &&& spread.ensures((arith.one,), neuron.bias)
    &&& forall|k: int|
        0 <= k < neuron.weights.len() ==> spread.ensures((arith.one,), #[trigger] neuron.weights[k])
}

impl<G: Copy> Layer<G> {
    /// Breeds a layer from this one and `other`, neuron by neuron.
    pub fn mutate<A, M, X, T, S>(
        &self,
        other: &Self,
        mutation_rate: Rate,
        mutation: G,
        arith: &Arithmetic<G, A, M, X, T>,
        spread: &S,
    ) -> (child: Self) where
        A: Fn(G, G) -> G,
        M: Fn(G, G) -> G,
        X: Fn(G, G) -> G,
        T: Fn(G) -> G,
        S: Fn(G) -> G,

        requires
            arith.lawful(),
            spread.requires((mutation,)),
            layer_shape(self@) == layer_shape(other@),
        ensures
            layer_offspring(arith, spread, self@, other@, mutation_rate, mutation, child@),
    {
        let mut new_neurons: Vec<Neuron<G>> = Vec::new();
        let mut j: usize = 0;
        while j < self.neurons.len()
            invariant
                arith.lawful(),
                spread.requires((mutation,)),
                layer_shape(self@) == layer_shape(other@),
                j <= self.neurons.len(),
                new_neurons.len() == j,
                forall|m: int|
                    0 <= m < j ==> neuron_offspring(
                        arith,
                        spread,
                        self@[m],
                        other@[m],
                        mutation_rate,
                        mutation,
                        #[trigger] new_neurons@[m]@,
                    ),
            decreases self.neurons.len() - j,
        {
            proof {
                assert(layer_shape(self@).len() == layer_shape(other@).len());
                assert(layer_shape(self@)[j as int] == layer_shape(other@)[j as int]);
            }
            let neuron = self.neurons[j].mutate(
                &other.neurons[j],
                mutation_rate,
                mutation,
                arith,
                spread,
            );
            new_neurons.push(neuron);
            j += 1;
        }
        Layer { neurons: new_neurons }
    }

    /// A layer of `output_size` neurons with `input_size` weights each and
    /// the given activation, every gene drawn by `spread` for the unit.
    pub fn random<A, M, X, T, S>(
        input_size: usize,
        output_size: usize,
        activation_function: ActivationFunction,
        arith: &Arithmetic<G, A, M, X, T>,
        spread: &S,
    ) -> (layer: Self) where
        A: Fn(G, G) -> G,
        M: Fn(G, G) -> G,
        X: Fn(G, G) -> G,
        T: Fn(G) -> G,
        S: Fn(G) -> G,

        requires
            spread.requires((arith.one,)),
        ensures
            layer@.len() == output_size,
            forall|j: int|
                0 <= j < output_size ==> {
                    &&& (#[trigger] layer@[j]).weights.len() == input_size
                    &&& layer@[j].activation == activation_function
                    &&& drawn(arith, spread, layer@[j])
                },
    {
        let mut neurons: Vec<Neuron<G>> = Vec::new();
        let mut j: usize = 0;
        while j < output_size
            invariant
                spread.requires((arith.one,)),
                j <= output_size,
                neurons.len() == j,
                forall|m: int|
                    0 <= m < j ==> {
                        &&& (#[trigger] neurons@[m])@.weights.len() == input_size
                        &&& neurons@[m]@.activation == activation_function
                        &&& drawn(arith, spread, neurons@[m]@)
                    },
            decreases output_size - j,
        {
            neurons.push(Neuron::random(input_size, activation_function, arith, spread));
            j += 1;
        }
        Layer { neurons }
    }
}

impl<G: Copy> Network<G> {
    /// Breeds a network from this one and `other`, which has the same shape:
    /// every bias and every weight of the child recombines, on its own, the
    /// two genes in its place. The child has the shape of its parents and the
    /// activations of this one.
    pub fn mutate<A, M, X, T, S>(
        &self,
        other: &Self,
        mutation_rate: Rate,
        mutation: G,
        arith: &Arithmetic<G, A, M, X, T>,
        spread: &S,
    ) -> (child: Self) where
        A: Fn(G, G) -> G,
        M: Fn(G, G) -> G,
        X: Fn(G, G) -> G,
        T: Fn(G) -> G,
        S: Fn(G) -> G,

        requires
            arith.lawful(),
            spread.requires((mutation,)),
            network_shape(self@) == network_shape(other@),
        ensures
            network_offspring(arith, spread, self@, other@, mutation_rate, mutation, child@),
            network_shape(child@) == network_shape(self@),
    {
        let mut new_layers: Vec<Layer<G>> = Vec::new();
        let mut i: usize = 0;
        while i < self.layers.len()
            invariant
                arith.lawful(),
                spread.requires((mutation,)),
                network_shape(self@) == network_shape(other@),
                i <= self.layers.len(),
                new_layers.len() == i,
                forall|m: int|
                    0 <= m < i ==> layer_offspring(
                        arith,
                        spread,
                        self@[m],
                        other@[m],
                        mutation_rate,
                        mutation,
                        #[trigger] new_layers@[m]@,
                    ),
            decreases self.layers.len() - i,
        {
            proof {
                assert(network_shape(self@).len() == network_shape(other@).len());
                assert(network_shape(self@)[i as int] == network_shape(other@)[i as int]);
            }
            let layer = self.layers[i].mutate(
                &other.layers[i],
                mutation_rate,
                mutation,
                arith,
                spread,
            );
            new_layers.push(layer);
            i += 1;
        }
        let child = Network { layers: new_layers };
        proof {
            lemma_offspring_keeps_shape(
                arith,
                spread,
                self@,
                other@,
                mutation_rate,
                mutation,
                child@,
            );
        }
        child
    }

    /// The shape of the network: for each layer, the number of weights of
    /// each of its neurons.
    pub fn shape(&self) -> (shape: Vec<Vec<usize>>)
        ensures
            shape@.len() == self@.len(),
            forall|i: int|
                0 <= i < shape@.len() ==> (#[trigger] shape@[i])@.len() == self@[i].len(),
            forall|i: int, j: int|
                0 <= i < shape@.len() && 0 <= j < shape@[i]@.len() ==> (#[trigger] shape@[i]@[j])
                    == network_shape(self@)[i][j],
    {
        let mut shape: Vec<Vec<usize>> = Vec::new();
        let mut i: usize = 0;
        while i < self.layers.len()
            invariant
                i <= self.layers.len(),
                shape.len() == i,
                forall|m: int| 0 <= m < i ==> (#[trigger] shape@[m])@.len() == self@[m].len(),
                forall|m: int, j: int|
                    0 <= m < i && 0 <= j < shape@[m]@.len() ==> (#[trigger] shape@[m]@[j])
                        == self@[m][j].weights.len(),
            decreases self.layers.len() - i,
        {
            let layer = &self.layers[i];
            let mut widths: Vec<usize> = Vec::new();
            let mut j: usize = 0;
            while j < layer.neurons.len()
                invariant
                    j <= layer.neurons.len(),
                    widths.len() == j,
                    forall|m: int| 0 <= m < j ==> widths@[m] == layer@[m].weights.len(),
                decreases layer.neurons.len() - j,
            {
                widths.push(layer.neurons[j].weights.len());
                j += 1;
            }
            shape.push(widths);
            i += 1;
        }
        shape
    }

    /// A network laid out as the topology says, every gene drawn by `spread`
    /// for the unit.
    pub fn random<A, M, X, T, S>(
        layers: &[LayerTopology],
        arith: &Arithmetic<G, A, M, X, T>,
        spread: &S,
    ) -> (network: Self) where
        A: Fn(G, G) -> G,
        M: Fn(G, G) -> G,
        X: Fn(G, G) -> G,
        T: Fn(G) -> G,
        S: Fn(G) -> G,

        requires
            layers@.len() > 1,
            spread.requires((arith.one,)),
        ensures
            fresh(arith, spread, network@, layers@),
    {
        let mut built: Vec<Layer<G>> = Vec::new();
        let mut i: usize = 1;
        while i < layers.len()
            invariant
                spread.requires((arith.one,)),
                1 <= i <= layers.len(),
                built.len() + 1 == i,
                forall|m: int|
                    0 <= m < built.len() ==> (#[trigger] built@[m])@.len() == layers@[m
                        + 1].neurons,
                forall|m: int, j: int|
                    0 <= m < built.len() && 0 <= j < built@[m]@.len() ==> {
                        &&& (#[trigger] built@[m]@[j]).weights.len() == layers@[m].neurons
                        &&& built@[m]@[j].activation == layers@[m + 1].activation_function
                        &&& drawn(arith, spread, built@[m]@[j])
                    },
            decreases layers.len() - i,
        {
            let layer = Layer::random(
                layers[i - 1].neurons,
                layers[i].neurons,
                layers[i].activation_function,
                arith,
                spread,
            );
            built.push(layer);
            i += 1;
        }
        Network { layers: built }
    }
}

/// Under a mutation rate of zero a recombined gene is exactly one of the two
/// genes it comes of, whatever the amount of mutation.
pub proof fn lemma_rate_zero_keeps_genes<G, A, M, X, T, S>(
    arith: &Arithmetic<G, A, M, X, T>,
    spread: &S,
    first: G,
    second: G,
    rate: Rate,
    amount: G,
    gene: G,
) where A: Fn(G, G) -> G, M: Fn(G, G) -> G, X: Fn(G, G) -> G, T: Fn(G) -> G, S: Fn(G) -> G
    requires
        rate.never(),
        recombined(arith, spread, first, second, rate, amount, gene),
    ensures
        gene == first || gene == second,
{
}

/// Under a mutation rate of one a recombined gene is one of the two genes it
/// comes of plus an offset drawn for the amount. So whatever the addition
/// and the draw promise of a value plus such an offset, `near` the value,
/// holds of the gene and one of the two: with offsets of no more than the
/// amount either way, the gene lies no further than the amount below the
/// smaller and above the larger of them.
pub proof fn lemma_rate_one_stays_near<G, A, M, X, T, S>(
    arith: &Arithmetic<G, A, M, X, T>,
    spread: &S,
    first: G,
    second: G,
    rate: Rate,
    amount: G,
    gene: G,
    near: spec_fn(G, G) -> bool,
) where A: Fn(G, G) -> G, M: Fn(G, G) -> G, X: Fn(G, G) -> G, T: Fn(G) -> G, S: Fn(G) -> G
    requires
        rate.always(),
        recombined(arith, spread, first, second, rate, amount, gene),
        forall|value: G, offset: G, moved: G|
            #![trigger spread.ensures((amount,), offset), arith.add.ensures((value, offset), moved)]
            spread.ensures((amount,), offset) && arith.add.ensures((value, offset), moved)
                ==> near(value, moved),
    ensures
        near(first, gene) || near(second, gene),
{
    let offset = choose|offset: G|
        #![trigger spread.ensures((amount,), offset)]
        spread.ensures((amount,), offset) && (arith.add.ensures((first, offset), gene)
            || arith.add.ensures((second, offset), gene));
    if arith.add.ensures((first, offset), gene) {
        assert(near(first, gene));
    } else {
        assert(near(second, gene));
    }
}

/// Offspring has the shape of its parents.
pub proof fn lemma_offspring_keeps_shape<G, A, M, X, T, S>(
    arith: &Arithmetic<G, A, M, X, T>,
    spread: &S,
    first: NetworkView<G>,
    second: NetworkView<G>,
    rate: Rate,
    amount: G,
    child: NetworkView<G>,
) where A: Fn(G, G) -> G, M: Fn(G, G) -> G, X: Fn(G, G) -> G, T: Fn(G) -> G, S: Fn(G) -> G
    requires
        network_offspring(arith, spread, first, second, rate, amount, child),
    ensures
        network_shape(child) == network_shape(first),
{
    assert forall|i: int| 0 <= i < child.len() implies layer_shape(#[trigger] child[i])
        == layer_shape(first[i]) by {
        assert(layer_offspring(arith, spread, first[i], second[i], rate, amount, child[i]));
        assert forall|j: int| 0 <= j < child[i].len() implies (#[trigger] child[i][j]).weights.len()
            == first[i][j].weights.len() by {
            assert(neuron_offspring(
                arith,
                spread,
                first[i][j],
                second[i][j],
                rate,
                amount,
                child[i][j],
            ));
        }
        assert(layer_shape(child[i]) =~= layer_shape(first[i]));
    }
    assert(network_shape(child) =~= network_shape(first));
}

/// Offspring of a network that is laid out as a topology says is laid out so
/// too.
pub proof fn lemma_offspring_conforms<G, A, M, X, T, S>(
    arith: &Arithmetic<G, A, M, X, T>,
    spread: &S,
    first: NetworkView<G>,
    second: NetworkView<G>,
    rate: Rate,
    amount: G,
    child: NetworkView<G>,
    topology: Seq<LayerTopology>,
) where A: Fn(G, G) -> G, M: Fn(G, G) -> G, X: Fn(G, G) -> G, T: Fn(G) -> G, S: Fn(G) -> G
    requires
        network_offspring(arith, spread, first, second, rate, amount, child),
        conforms(first, topology),
    ensures
        conforms(child, topology),
{
    assert forall|i: int| 0 <= i < child.len() implies (#[trigger] child[i]).len() == topology[i
        + 1].neurons by {
        assert(layer_offspring(arith, spread, first[i], second[i], rate, amount, child[i]));
    }
    assert forall|i: int, j: int| 0 <= i < child.len() && 0 <= j < child[i].len() implies {
        &&& (#[trigger] child[i][j]).weights.len() == topology[i].neurons
        &&& child[i][j].activation == topology[i + 1].activation_function
    } by {
        assert(layer_offspring(arith, spread, first[i], second[i], rate, amount, child[i]));
        assert(neuron_offspring(
            arith,
            spread,
            first[i][j],
            second[i][j],
            rate,
            amount,
            child[i][j],
        ));
        assert(first[i][j].weights.len() == topology[i].neurons);
    }
}

/// Networks that are laid out as one topology says have one shape.
pub proof fn lemma_conforming_share_shape<G>(
    first: NetworkView<G>,
    second: NetworkView<G>,
    topology: Seq<LayerTopology>,
)
    requires
        conforms(first, topology),
        conforms(second, topology),
    ensures
        network_shape(first) == network_shape(second),
{
    assert forall|i: int| 0 <= i < first.len() implies layer_shape(#[trigger] first[i])
        == layer_shape(second[i]) by {
        assert(first[i].len() == second[i].len());
        assert forall|j: int| 0 <= j < first[i].len() implies (#[trigger] first[i][j]).weights.len()
            == second[i][j].weights.len() by {
            assert(second[i][j].weights.len() == topology[i].neurons);
        }
        assert(layer_shape(first[i]) =~= layer_shape(second[i]));
    }
    assert(network_shape(first) =~= network_shape(second));
}

/// A network that is laid out as a topology says takes as many inputs as the
/// first entry of the topology says: its evaluation on so many ends in no
/// mismatch.
pub proof fn lemma_conforming_takes_inputs<G>(
    layers: NetworkView<G>,
    topology: Seq<LayerTopology>,
)
    requires
        conforms(layers, topology),
    ensures
        network_fault(layers, topology[0].neurons as nat) is None,
{
    let width = topology[0].neurons as nat;
    assert forall|i: int| 0 <= i < layers.len() implies !#[trigger] misfits_at(
        layers,
        width,
        i,
    ) by {
        let reaching = width_at(layers, width, i);
        if i > 0 {
            assert(layers[i - 1].len() == topology[i].neurons);
        }
        assert(reaching == topology[i].neurons);
        assert forall|j: int| !first_misfit(layers[i], reaching, j) by {
            if 0 <= j < layers[i].len() {
                assert(layers[i][j].weights.len() == topology[i].neurons);
            }
        }
    }
    assert forall|i: int| !first_fault(layers, width, i) by {
        if 0 <= i < layers.len() {
            assert(!misfits_at(layers, width, i));
        }
    }
}

/// With arithmetic whose results are determined by its arguments, the sums
/// of a neuron's products agree up to any index.
proof fn lemma_sums_agree<G, A, M, X, T>(
    arith: &Arithmetic<G, A, M, X, T>,
    inputs: Seq<G>,
    weights: Seq<G>,
    terms: Seq<G>,
    partial: Seq<G>,
    other_terms: Seq<G>,
    other_partial: Seq<G>,
    i: int,
) where A: Fn(G, G) -> G, M: Fn(G, G) -> G, X: Fn(G, G) -> G, T: Fn(G) -> G
    requires
        arith.deterministic(),
        accumulates(arith, inputs, weights, terms, partial),
        accumulates(arith, inputs, weights, other_terms, other_partial),
        0 <= i <= inputs.len(),
    ensures
        partial[i] == other_partial[i],
    decreases i,
{
    if i > 0 {
        lemma_sums_agree(
            arith,
            inputs,
            weights,
            terms,
            partial,
            other_terms,
            other_partial,
            i - 1,
        );
        assert(is_term(arith, inputs, weights, terms, i - 1));
        assert(is_term(arith, inputs, weights, other_terms, i - 1));
        assert(is_partial(arith, terms, partial, i - 1));
        assert(is_partial(arith, other_terms, other_partial, i - 1));
    }
}

/// The products, the sums and the level by which a neuron gave an output.
pub proof fn response_of<G, A, M, X, T>(
    arith: &Arithmetic<G, A, M, X, T>,
    neuron: NeuronView<G>,
    inputs: Seq<G>,
    out: G,
) -> (by: (Seq<G>, Seq<G>, G)) where
    A: Fn(G, G) -> G,
    M: Fn(G, G) -> G,
    X: Fn(G, G) -> G,
    T: Fn(G) -> G,

    requires
        responds(arith, neuron, inputs, out),
    ensures
        responds_by(arith, neuron, inputs, by.0, by.1, by.2, out),
{
    choose|terms: Seq<G>, partial: Seq<G>, level: G|
        responds_by(arith, neuron, inputs, terms, partial, level, out)
}

/// The signals by which a network gave an output.
pub proof fn signals_of<G, A, M, X, T>(
    arith: &Arithmetic<G, A, M, X, T>,
    layers: NetworkView<G>,
    inputs: Seq<G>,
    output: Seq<G>,
) -> (signals: Seq<Seq<G>>) where
    A: Fn(G, G) -> G,
    M: Fn(G, G) -> G,
    X: Fn(G, G) -> G,
    T: Fn(G) -> G,

    requires
        reaches(arith, layers, inputs, output),
    ensures
        passes(arith, layers, inputs, signals),
        output == signals[layers.len() as int],
{
    choose|signals: Seq<Seq<G>>|
        #![trigger passes(arith, layers, inputs, signals)]
        passes(arith, layers, inputs, signals) && output == signals[layers.len() as int]
}

/// With arithmetic whose results are determined by its arguments, a neuron
/// has one output on given inputs.
pub proof fn lemma_neuron_is_function<G, A, M, X, T>(
    arith: &Arithmetic<G, A, M, X, T>,
    neuron: NeuronView<G>,
    inputs: Seq<G>,
    out: G,
    other: G,
) where A: Fn(G, G) -> G, M: Fn(G, G) -> G, X: Fn(G, G) -> G, T: Fn(G) -> G
    requires
        arith.deterministic(),
        responds(arith, neuron, inputs, out),
        responds(arith, neuron, inputs, other),
    ensures
        out == other,
{
    let (terms, partial, level) = response_of(arith, neuron, inputs, out);
    let (other_terms, other_partial, other_level) = response_of(arith, neuron, inputs, other);
    lemma_sums_agree(
        arith,
        inputs,
        neuron.weights,
        terms,
        partial,
        other_terms,
        other_partial,
        inputs.len() as int,
    );
}

/// With arithmetic whose results are determined by its arguments, the
/// signals that pass through a network agree up to any layer.
proof fn lemma_signals_agree<G, A, M, X, T>(
    arith: &Arithmetic<G, A, M, X, T>,
    layers: NetworkView<G>,
    inputs: Seq<G>,
    signals: Seq<Seq<G>>,
    other: Seq<Seq<G>>,
    i: int,
) where A: Fn(G, G) -> G, M: Fn(G, G) -> G, X: Fn(G, G) -> G, T: Fn(G) -> G
    requires
        arith.deterministic(),
        passes(arith, layers, inputs, signals),
        passes(arith, layers, inputs, other),
        0 <= i <= layers.len(),
    ensures
        signals[i] == other[i],
    decreases i,
{
    if i > 0 {
        lemma_signals_agree(arith, layers, inputs, signals, other, i - 1);
        assert(is_signal(arith, layers, signals, i - 1));
        assert(is_signal(arith, layers, other, i - 1));
        let layer = layers[i - 1];
        let before = signals[i - 1];
        assert forall|j: int| 0 <= j < layer.len() implies signals[i][j] == other[i][j] by {
            lemma_neuron_is_function(arith, layer[j], before, signals[i][j], other[i][j]);
        }
        assert(signals[i] =~= other[i]);
    }
}

/// Evaluation is a function: with arithmetic whose results are determined
/// by its arguments, a network has one output on given inputs, so that two
/// evaluations of the same network on the same inputs give the same values.
pub proof fn lemma_propagate_is_function<G, A, M, X, T>(
    arith: &Arithmetic<G, A, M, X, T>,
    layers: NetworkView<G>,
    inputs: Seq<G>,
    output: Seq<G>,
    other: Seq<G>,
) where A: Fn(G, G) -> G, M: Fn(G, G) -> G, X: Fn(G, G) -> G, T: Fn(G) -> G
    requires
        arith.deterministic(),
        reaches(arith, layers, inputs, output),
        reaches(arith, layers, inputs, other),
    ensures
        output == other,
{
    let signals = signals_of(arith, layers, inputs, output);
    let other_signals = signals_of(arith, layers, inputs, other);
    lemma_signals_agree(arith, layers, inputs, signals, other_signals, layers.len() as int);
}

} // verus!
