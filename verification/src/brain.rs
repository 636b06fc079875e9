//! The policy of an agent: what it senses, what it decides, and what it asks
//! of the world to carry the decision out.

use crate::arithmetic::Arithmetic;
use crate::chance::Lottery;
use crate::network::{
    fresh, lemma_conforming_takes_inputs, network_fault, reaches, ActivationFunction,
    DimensionMismatch, LayerTopology, Network, NetworkView,
};
use vstd::prelude::*;

verus! {

/// The kinds of content of the world that the policy names.
#[derive(Clone, Copy, PartialEq, Eq, Structural, Debug)]
pub enum Content {
    /// Garbage, with its quantity.
    Garbage(usize),
    /// A bin, with the two bounds of its range.
    Bin(usize, usize),
    /// No content.
    Nothing,
}

/// What to do with a content once it is reached.
#[derive(Clone, Copy, PartialEq, Eq, Structural, Debug)]
pub enum Interaction {
    /// Destroy it, which takes it in.
    Destroy,
    /// Put the given content there, in the given quantity.
    Put(Content, usize),
}

/// A question to the resolver of actions: for the best next step towards
/// content of the kind of `target`, there to do what `interaction` says.
/// The resolver answers with a step, or with none where it knows no way.
#[derive(Clone, Copy, PartialEq, Eq, Structural, Debug)]
pub struct Request {
    pub target: Content,
    pub interaction: Option<Interaction>,
}

/// What the policy intends.
#[derive(Clone, Copy, PartialEq, Eq, Structural, Debug)]
pub enum BrainAction {
    /// Acquire the content.
    GetContent(Content),
    /// Deposit, at the first content, the second.
    PutContent(Content, Content),
    /// Explore.
    Explore,
}

/// The intent that an index stands for.
pub open spec fn action_at(index: usize) -> Option<BrainAction> {
    if index == 0 {
        Some(BrainAction::GetContent(Content::Garbage(1)))
    } else if index == 1 {
        Some(BrainAction::PutContent(Content::Bin(0, 0), Content::Garbage(1)))
    } else if index == 2 {
        Some(BrainAction::Explore)
    } else {
        None
    }
}

impl BrainAction {
    /// The question that carries the intent out.
    pub open spec fn request_of(self) -> Request {
        match self {
            BrainAction::GetContent(content) => Request {
                target: content,
                interaction: Some(Interaction::Destroy),
            },
            BrainAction::PutContent(place, content) => Request {
                target: place,
                interaction: Some(Interaction::Put(content, 100)),
            },
            BrainAction::Explore => Request { target: Content::Nothing, interaction: None },
        }
    }

    /// The intent that an index stands for: to acquire garbage for 0, to
    /// deposit garbage in a bin for 1, to explore for 2, and none for any
    /// other.
    pub fn from_index(index: usize) -> (action: Option<BrainAction>)
        ensures
            action == action_at(index),
    {
        if index == 0 {
            Some(BrainAction::GetContent(Content::Garbage(1)))
        } else if index == 1 {
            Some(BrainAction::PutContent(Content::Bin(0, 0), Content::Garbage(1)))
        } else if index == 2 {
            Some(BrainAction::Explore)
        } else {
            None
        }
    }

    /// The question that carries the intent out: to destroy the content; to
    /// put the content at the place, a hundred of it; or, to explore, for no
    /// content and no interaction.
    pub fn request(&self) -> (request: Request)
        ensures
            request == self.request_of(),
    {
        match self {
            BrainAction::GetContent(content) => Request {
                target: *content,
                interaction: Some(Interaction::Destroy),
            },
            BrainAction::PutContent(place, content) => Request {
                target: *place,
                interaction: Some(Interaction::Put(*content, 100)),
            },
            BrainAction::Explore => Request { target: Content::Nothing, interaction: None },
        }
    }
}

/// The sum of the first `k` of the quantities.
pub open spec fn stored_among(quantities: Seq<usize>, k: nat) -> nat
    decreases k,
{
    if k == 0 {
        0
    } else {
        stored_among(quantities, (k - 1) as nat) + quantities[k - 1] as nat
    }
}

/// What the agent senses when its storage of the given capacity holds the
/// given quantities and the two probes were answered as given.
///
/// The storage is full when the quantities add up to its capacity or more.
/// A flag of the other two is raised when the probe found no way: both tell
/// of what cannot be reached.
pub open spec fn sensed<W>(
    capacity: usize,
    stored: Seq<usize>,
    acquire: Option<W>,
    deposit: Option<W>,
) -> Senses {
    Senses {
        inventory_full: stored_among(stored, stored.len()) >= capacity,
        target_unreachable: acquire is None,
        deposit_unreachable: deposit is None,
    }
}

/// The question whose answer tells whether there is something to acquire in
/// reach.
pub open spec fn acquire_probe_of() -> Request {
    Request { target: Content::Garbage(1), interaction: Some(Interaction::Destroy) }
}

/// The question whose answer tells whether there is a place to deposit in
/// reach.
pub open spec fn deposit_probe_of() -> Request {
    Request {
        target: Content::Bin(0, 0),
        interaction: Some(Interaction::Put(Content::Garbage(1), 1)),
    }
}

/// What the agent senses of its state and of the world, each as a flag.
#[derive(Clone, Copy, PartialEq, Eq, Structural, Debug)]
pub struct Senses {
    /// The storage has no room left.
    pub inventory_full: bool,
    /// There is no way known to anything to acquire.
    pub target_unreachable: bool,
    /// There is no way known to any place to deposit.
    pub deposit_unreachable: bool,
}

impl Senses {
    /// The question whose answer tells whether there is something to acquire
    /// in reach: for the way to garbage, to take it.
    pub fn acquire_probe() -> (request: Request)
        ensures
            request == acquire_probe_of(),
    {
        Request { target: Content::Garbage(1), interaction: Some(Interaction::Destroy) }
    }

    /// The question whose answer tells whether there is a place to deposit
    /// in reach: for the way to a bin, to put one piece of garbage there.
    pub fn deposit_probe() -> (request: Request)
        ensures
            request == deposit_probe_of(),
    {
        Request {
            target: Content::Bin(0, 0),
            interaction: Some(Interaction::Put(Content::Garbage(1), 1)),
        }
    }

    /// Reads the senses off the state of the storage and the answers to the
    /// two probes.
    ///
    /// The storage is full when the quantities stored add up to its capacity
    /// or more. A flag of the other two is raised when the probe found no
    /// way: both tell of what cannot be reached.
    pub fn observe<W>(
        capacity: usize,
        stored: &Vec<usize>,
        acquire: &Option<W>,
        deposit: &Option<W>,
    ) -> (senses: Senses)
        ensures
            senses == sensed(capacity, stored@, *acquire, *deposit),
    {
        let mut held: usize = 0;
        let mut i: usize = 0;
        while i < stored.len()
            invariant
                i <= stored.len(),
                held <= capacity,
                held == capacity ==> stored_among(stored@, i as nat) >= capacity,
                held < capacity ==> stored_among(stored@, i as nat) == held,
            decreases stored.len() - i,
        {
            if stored[i] >= capacity - held {
                held = capacity;
            } else {
                held = held + stored[i];
            }
            i += 1;
        }
        Senses {
            inventory_full: held == capacity,
            target_unreachable: acquire.is_none(),
            deposit_unreachable: deposit.is_none(),
        }
    }
}

/// Why a brain came to no intent.
#[derive(Clone, Copy, PartialEq, Eq, Structural, Debug)]
pub enum ThinkError {
    /// The network does not take the three senses.
    Dimension(DimensionMismatch),
    /// No distribution could be made of what the network gave.
    Undecided,
    /// The index drawn stands for no intent.
    UnknownAction(usize),
}

/// One candidate: the network that decides for an agent.
#[derive(Debug, PartialEq)]
pub struct Brain<G> {
    pub network: Network<G>,
}

impl<G> View for Brain<G> {
    type V = NetworkView<G>;

    open spec fn view(&self) -> NetworkView<G> {
        self.network@
    }
}

impl<G: Copy> Clone for Brain<G> {
    /// A copy of the brain, with a copy of its network.
    fn clone(&self) -> (copy: Self)
        ensures
            copy@ == self@,
    {
        Brain { network: self.network.clone() }
    }
}

/// The topology of a brain: three senses in, four neurons between, and one
/// output for each of the three intents.
pub open spec fn brain_topology() -> Seq<LayerTopology> {
    seq![
        LayerTopology { neurons: 3, activation_function: ActivationFunction::ReLU },
        LayerTopology { neurons: 4, activation_function: ActivationFunction::ReLU },
        LayerTopology { neurons: 3, activation_function: ActivationFunction::TANH },
    ]
}

/// The level of a flag as an input of the network: the unit for a raised
/// flag, zero for a lowered one.
pub open spec fn level_of<G, A, M, X, T>(arith: &Arithmetic<G, A, M, X, T>, flag: bool) -> G {
    if flag {
        arith.one
    } else {
        arith.zero
    }
}

/// The inputs that the senses make: whether the storage is full, whether
/// there is nothing to acquire in reach, whether there is no place to deposit
/// in reach, in this order.
pub open spec fn features<G, A, M, X, T>(arith: &Arithmetic<G, A, M, X, T>, senses: Senses) -> Seq<
    G,
> {
    seq![
        level_of(arith, senses.inventory_full),
        level_of(arith, senses.target_unreachable),
        level_of(arith, senses.deposit_unreachable),
    ]
}

/// `weights[i]` is a possible value of `outputs[i]` plus the unit.
pub open spec fn is_shifted<G, A, M, X, T>(
    arith: &Arithmetic<G, A, M, X, T>,
    outputs: Seq<G>,
    weights: Seq<G>,
    i: int,
) -> bool where A: Fn(G, G) -> G, M: Fn(G, G) -> G, X: Fn(G, G) -> G, T: Fn(G) -> G {
    arith.add.ensures((outputs[i], arith.one), weights[i])
}

/// `weights` are the outputs, each raised by the unit.
pub open spec fn shifted<G, A, M, X, T>(
    arith: &Arithmetic<G, A, M, X, T>,
    outputs: Seq<G>,
    weights: Seq<G>,
) -> bool where A: Fn(G, G) -> G, M: Fn(G, G) -> G, X: Fn(G, G) -> G, T: Fn(G) -> G {
    &&& weights.len() == outputs.len()
    &&& forall|i: int| 0 <= i < outputs.len() ==> #[trigger] is_shifted(arith, outputs, weights, i)
}

/// What comes of an index that was drawn: the intent that it stands for, or
/// the complaint that it stands for none.
pub open spec fn outcome_of(index: usize) -> Result<BrainAction, ThinkError> {
    match action_at(index) {
        Some(action) => Ok(action),
        None => Err(ThinkError::UnknownAction(index)),
    }
}

/// `decision` is a possible outcome of drawing an intent with the given
/// weights: no decision where no distribution can be made of them, else what
/// comes of an index drawn from it.
pub open spec fn draws_intent<G, D, B, P>(
    lottery: &Lottery<B, P>,
    weights: Vec<G>,
    decision: Result<BrainAction, ThinkError>,
) -> bool where B: Fn(&Vec<G>) -> Option<D>, P: Fn(&D) -> usize {
    exists|distribution: Option<D>|
        #![trigger lottery.build.ensures((&weights,), distribution)]
        {
            &&& lottery.build.ensures((&weights,), distribution)
            &&& match distribution {
                None => decision == Err::<BrainAction, ThinkError>(ThinkError::Undecided),
                Some(d) => exists|index: usize|
                    #![trigger lottery.pick.ensures((&d,), index)]
                    lottery.pick.ensures((&d,), index) && decision == outcome_of(index),
            }
        }
}

/// `decision` is a possible outcome of thinking with the network on the
/// senses, by way of the given outputs and weights: the outputs are the
/// network's on the features, the weights are the outputs, each raised by the
/// unit, and they weigh the intents, of which one is drawn.
pub open spec fn thinks_by<G, D, A, M, X, T, B, P>(
    arith: &Arithmetic<G, A, M, X, T>,
    lottery: &Lottery<B, P>,
    network: NetworkView<G>,
    senses: Senses,
    outputs: Seq<G>,
    weights: Vec<G>,
    decision: Result<BrainAction, ThinkError>,
) -> bool where
    A: Fn(G, G) -> G,
    M: Fn(G, G) -> G,
    X: Fn(G, G) -> G,
    T: Fn(G) -> G,
    B: Fn(&Vec<G>) -> Option<D>,
    P: Fn(&D) -> usize,
 {
    &&& reaches(arith, network, features(arith, senses), outputs)
    &&& shifted(arith, outputs, weights@)
    &&& draws_intent(lottery, weights, decision)
}

/// `decision` is a possible outcome of thinking with the network on the
/// senses: the network's outputs on the features, each raised by the unit,
/// weigh the intents, and one is drawn.
pub open spec fn thinks<G, D, A, M, X, T, B, P>(
    arith: &Arithmetic<G, A, M, X, T>,
    lottery: &Lottery<B, P>,
    network: NetworkView<G>,
    senses: Senses,
    decision: Result<BrainAction, ThinkError>,
) -> bool where
    A: Fn(G, G) -> G,
    M: Fn(G, G) -> G,
    X: Fn(G, G) -> G,
    T: Fn(G) -> G,
    B: Fn(&Vec<G>) -> Option<D>,
    P: Fn(&D) -> usize,
 {
    exists|outputs: Seq<G>, weights: Vec<G>|
        thinks_by(arith, lottery, network, senses, outputs, weights, decision)
}

/// `step` is what comes of the decision once the resolver was asked: its
/// answer to the question of the intent, or the complaint.
pub open spec fn settles<W, Q>(
    resolve: &Q,
    decision: Result<BrainAction, ThinkError>,
    step: Result<Option<W>, ThinkError>,
) -> bool where Q: Fn(Request) -> Option<W> {
    match decision {
        Ok(action) => step matches Ok(answer) && resolve.ensures((action.request_of(),), answer),
        Err(complaint) => step == Err::<Option<W>, ThinkError>(complaint),
    }
}

/// `step` is a possible next step of an agent with the given network and
/// senses: the complaint of the network where it does not take the senses,
/// else what comes of a decision.
pub open spec fn follows_up<G, D, W, A, M, X, T, B, P, Q>(
    arith: &Arithmetic<G, A, M, X, T>,
    lottery: &Lottery<B, P>,
    resolve: &Q,
    network: NetworkView<G>,
    senses: Senses,
    step: Result<Option<W>, ThinkError>,
) -> bool where
    A: Fn(G, G) -> G,
    M: Fn(G, G) -> G,
    X: Fn(G, G) -> G,
    T: Fn(G) -> G,
    B: Fn(&Vec<G>) -> Option<D>,
    P: Fn(&D) -> usize,
    Q: Fn(Request) -> Option<W>,
 {
    match network_fault(network, 3) {
        Some(mismatch) => step == Err::<Option<W>, ThinkError>(ThinkError::Dimension(mismatch)),
        None => exists|decision: Result<BrainAction, ThinkError>|
            #![trigger settles(resolve, decision, step)]
            thinks(arith, lottery, network, senses, decision) && settles(resolve, decision, step),
    }
}

/// `step` is a possible next step of an agent with the given network whose
/// storage of the given capacity holds the given quantities, the resolver
/// having answered the two probes with `acquire` and `deposit`: the answers
/// and the storage make the senses, and the step follows from them.
pub open spec fn acts_on<G, D, W, A, M, X, T, B, P, Q>(
    arith: &Arithmetic<G, A, M, X, T>,
    lottery: &Lottery<B, P>,
    resolve: &Q,
    network: NetworkView<G>,
    capacity: usize,
    stored: Seq<usize>,
    acquire: Option<W>,
    deposit: Option<W>,
    step: Result<Option<W>, ThinkError>,
) -> bool where
    A: Fn(G, G) -> G,
    M: Fn(G, G) -> G,
    X: Fn(G, G) -> G,
    T: Fn(G) -> G,
    B: Fn(&Vec<G>) -> Option<D>,
    P: Fn(&D) -> usize,
    Q: Fn(Request) -> Option<W>,
 {
    &&& resolve.ensures((acquire_probe_of(),), acquire)
    &&& resolve.ensures((deposit_probe_of(),), deposit)
    &&& follows_up(
        arith,
        lottery,
        resolve,
        network,
        sensed(capacity, stored, acquire, deposit),
        step,
    )
}

/// `step` is a possible next step of an agent with the given network whose
/// storage of the given capacity holds the given quantities: the resolver
/// answers the two probes, the answers and the storage make the senses, and
/// the step follows from them.
pub open spec fn acts<G, D, W, A, M, X, T, B, P, Q>(
    arith: &Arithmetic<G, A, M, X, T>,
    lottery: &Lottery<B, P>,
    resolve: &Q,
    network: NetworkView<G>,
    capacity: usize,
    stored: Seq<usize>,
    step: Result<Option<W>, ThinkError>,
) -> bool where
    A: Fn(G, G) -> G,
    M: Fn(G, G) -> G,
    X: Fn(G, G) -> G,
    T: Fn(G) -> G,
    B: Fn(&Vec<G>) -> Option<D>,
    P: Fn(&D) -> usize,
    Q: Fn(Request) -> Option<W>,
 {
    exists|acquire: Option<W>, deposit: Option<W>|
        acts_on(arith, lottery, resolve, network, capacity, stored, acquire, deposit, step)
}

impl<G: Copy> Brain<G> {
    /// The brain that decides with the given network.
    pub fn from_network(network: Network<G>) -> (brain: Self)
        ensures
            brain.network == network,
    {
        Self { network }
    }

    /// The topology of a brain: three senses in, four rectified neurons
    /// between, and one output, squashed by the hyperbolic tangent, for
    /// each of the three intents.
    pub fn topology() -> (layers: Vec<LayerTopology>)
        ensures
            layers@ == brain_topology(),
    {
        let mut layers: Vec<LayerTopology> = Vec::new();
        layers.push(LayerTopology { neurons: 3, activation_function: ActivationFunction::ReLU });
        layers.push(LayerTopology { neurons: 4, activation_function: ActivationFunction::ReLU });
        layers.push(LayerTopology { neurons: 3, activation_function: ActivationFunction::TANH });
        assert(layers@ =~= brain_topology());
        layers
    }

    /// A brain with a fresh network of a brain's topology, every gene drawn
    /// by `spread` for the unit. Such a brain takes the three senses.
    pub fn random<A, M, X, T, S>(
        arith: &Arithmetic<G, A, M, X, T>,
        spread: &S,
    ) -> (brain: Self) where
        A: Fn(G, G) -> G,
        M: Fn(G, G) -> G,
        X: Fn(G, G) -> G,
        T: Fn(G) -> G,
        S: Fn(G) -> G,

        requires
            spread.requires((arith.one,)),
        ensures
            fresh(arith, spread, brain@, brain_topology()),
            network_fault(brain@, 3) is None,
    {
        let layers = Self::topology();
        let brain = Self { network: Network::random(layers.as_slice(), arith, spread) };
        proof {
            lemma_conforming_takes_inputs(brain@, brain_topology());
        }
        brain
    }

    /// Decides what the agent intends, given what it senses.
    ///
    /// The three senses become the inputs of the network, the unit for a
    /// raised flag and zero for a lowered one. Each output of the network is
    /// raised by the unit, and the raised outputs weigh the drawing of an
    /// index, which stands for the intent.
    ///
    /// The decision fails where the network does not take three inputs,
    /// where no distribution can be made of the raised outputs, and where
    /// the index drawn stands for no intent.
    pub fn decide<D, A, M, X, T, B, P>(
        &self,
        senses: &Senses,
        arith: &Arithmetic<G, A, M, X, T>,
        lottery: &Lottery<B, P>,
    ) -> (decision: Result<BrainAction, ThinkError>) where
        A: Fn(G, G) -> G,
        M: Fn(G, G) -> G,
        X: Fn(G, G) -> G,
        T: Fn(G) -> G,
        B: Fn(&Vec<G>) -> Option<D>,
        P: Fn(&D) -> usize,

        requires
            arith.lawful(),
            lottery.lawful::<G, D>(),
        ensures
            match network_fault(self@, 3) {
                Some(mismatch) => decision == Err::<BrainAction, ThinkError>(
                    ThinkError::Dimension(mismatch),
                ),
                None => thinks(arith, lottery, self@, *senses, decision),
            },
    {
        let mut inputs: Vec<G> = Vec::new();
        inputs.push(if senses.inventory_full { arith.one } else { arith.zero });
        inputs.push(if senses.target_unreachable { arith.one } else { arith.zero });
        inputs.push(if senses.deposit_unreachable { arith.one } else { arith.zero });
        assert(inputs@ =~= features(arith, *senses));
        let outputs = match self.network.propagate(inputs, arith) {
            Ok(outputs) => outputs,
            Err(mismatch) => {
                return Err(ThinkError::Dimension(mismatch));
            },
        };
        let mut weights: Vec<G> = Vec::new();
        let mut i: usize = 0;
        while i < outputs.len()
            invariant
                arith.lawful(),
                i <= outputs.len(),
                weights.len() == i,
                forall|m: int| 0 <= m < i ==> #[trigger] is_shifted(arith, outputs@, weights@, m),
            decreases outputs.len() - i,
        {
            let ghost before = weights@;
            let raised = (arith.add)(outputs[i], arith.one);
            weights.push(raised);
            proof {
                assert forall|m: int| 0 <= m < i + 1 implies #[trigger] is_shifted(
                    arith,
                    outputs@,
                    weights@,
                    m,
                ) by {
                    if m < i {
                        assert(is_shifted(arith, outputs@, before, m));
                    }
                }
            }
            i += 1;
        }
        let decision = match (lottery.build)(&weights) {
            None => Err(ThinkError::Undecided),
            Some(distribution) => {
                let index = (lottery.pick)(&distribution);
                match BrainAction::from_index(index) {
                    Some(action) => Ok(action),
                    None => Err(ThinkError::UnknownAction(index)),
                }
            },
        };
        assert(draws_intent(lottery, weights, decision));
        assert(thinks_by(arith, lottery, self@, *senses, outputs@, weights, decision));
        decision
    }

    /// Chooses the next step of the agent: senses, decides, and asks the
    /// resolver for the step that carries the decision out.
    ///
    /// The resolver is asked three times, in this order: the two probes, whose
    /// answers tell what is in reach, and then the question of the intent
    /// that was decided. Its answer to the last is the step; it has none where
    /// the goal of the intent cannot be reached.
    pub fn think_action<D, W, A, M, X, T, B, P, Q>(
        &self,
        capacity: usize,
        stored: &Vec<usize>,
        resolve: &Q,
        arith: &Arithmetic<G, A, M, X, T>,
        lottery: &Lottery<B, P>,
    ) -> (step: Result<Option<W>, ThinkError>) where
        A: Fn(G, G) -> G,
        M: Fn(G, G) -> G,
        X: Fn(G, G) -> G,
        T: Fn(G) -> G,
        B: Fn(&Vec<G>) -> Option<D>,
        P: Fn(&D) -> usize,
        Q: Fn(Request) -> Option<W>,

        requires
            arith.lawful(),
            lottery.lawful::<G, D>(),
            forall|request: Request| #[trigger] resolve.requires((request,)),
        ensures
            acts(arith, lottery, resolve, self@, capacity, stored@, step),
    {
        let acquire = resolve(Senses::acquire_probe());
        let deposit = resolve(Senses::deposit_probe());
        let senses = Senses::observe(capacity, stored, &acquire, &deposit);
        let decision = self.decide(&senses, arith, lottery);
        let step = match decision {
            Ok(action) => Ok(resolve(action.request())),
            Err(complaint) => Err(complaint),
        };
        assert(follows_up(arith, lottery, resolve, self@, senses, step)) by {
            assert(settles(resolve, decision, step));
        }
        assert(acts_on(
            arith,
            lottery,
            resolve,
            self@,
            capacity,
            stored@,
            acquire,
            deposit,
            step,
        ));
        step
    }
}

} // verus!
