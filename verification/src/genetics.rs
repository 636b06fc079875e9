//! The genetic operator: from a scored population to the next one.

use crate::arithmetic::Arithmetic;
use crate::brain::Brain;
use crate::chance::{Lottery, Rate};
use crate::network::{
    conforms, lemma_conforming_share_shape, lemma_offspring_keeps_shape, network_offspring,
    network_shape, LayerTopology, NetworkView,
};
use vstd::prelude::*;

verus! {

/// The scores of a scored population, in its order.
pub open spec fn scores_of<G>(scored: Seq<(G, Brain<G>)>) -> Seq<G> {
    Seq::new(scored.len(), |i: int| scored[i].0)
}

/// The networks of a scored population, in its order.
pub open spec fn candidates_of<G>(scored: Seq<(G, Brain<G>)>) -> Seq<NetworkView<G>> {
    Seq::new(scored.len(), |i: int| scored[i].1@)
}

/// The networks of a population, in its order.
pub open spec fn networks_of<G>(population: Seq<Brain<G>>) -> Seq<NetworkView<G>> {
    Seq::new(population.len(), |i: int| population[i]@)
}

/// All the networks have one shape.
pub open spec fn uniform<G>(networks: Seq<NetworkView<G>>) -> bool {
    forall|i: int, j: int|
        0 <= i < networks.len() && 0 <= j < networks.len() ==> network_shape(
            #[trigger] networks[i],
        ) == network_shape(#[trigger] networks[j])
}

/// The network has the shape of every one of the parents.
pub open spec fn shares_shape<G>(parents: Seq<NetworkView<G>>, network: NetworkView<G>) -> bool {
    forall|p: int|
        0 <= p < parents.len() ==> network_shape(network) == network_shape(#[trigger] parents[p])
}

/// Every candidate of the population is laid out as the topology says.
pub open spec fn all_conform<G>(
    networks: Seq<NetworkView<G>>,
    topology: Seq<LayerTopology>,
) -> bool {
    forall|k: int| 0 <= k < networks.len() ==> conforms(#[trigger] networks[k], topology)
}

/// Candidates that are laid out as one topology says have one shape.
pub proof fn lemma_conforming_uniform<G>(
    networks: Seq<NetworkView<G>>,
    topology: Seq<LayerTopology>,
)
    requires
        all_conform(networks, topology),
    ensures
        uniform(networks),
{
    assert forall|i: int, j: int|
        0 <= i < networks.len() && 0 <= j < networks.len() implies network_shape(
        #[trigger] networks[i],
    ) == network_shape(#[trigger] networks[j]) by {
        lemma_conforming_share_shape(networks[i], networks[j], topology);
    }
}

/// `child` is a possible offspring of the parents at `first` and `second`,
/// both of which the distribution may give.
pub open spec fn mates<G, D, A, M, X, T, S, B, P>(
    arith: &Arithmetic<G, A, M, X, T>,
    spread: &S,
    lottery: &Lottery<B, P>,
    parents: Seq<NetworkView<G>>,
    distribution: D,
    rate: Rate,
    amount: G,
    child: NetworkView<G>,
    first: usize,
    second: usize,
) -> bool where
    A: Fn(G, G) -> G,
    M: Fn(G, G) -> G,
    X: Fn(G, G) -> G,
    T: Fn(G) -> G,
    S: Fn(G) -> G,
    B: Fn(&Vec<G>) -> Option<D>,
    P: Fn(&D) -> usize,
 {
    &&& lottery.pick.ensures((&distribution,), first)
    &&& lottery.pick.ensures((&distribution,), second)
    &&& first < parents.len()
    &&& second < parents.len()
    &&& network_offspring(
        arith,
        spread,
        parents[first as int],
        parents[second as int],
        rate,
        amount,
        child,
    )
}

/// `child` is a possible offspring of two of the parents, each drawn from
/// the distribution.
pub open spec fn bred<G, D, A, M, X, T, S, B, P>(
    arith: &Arithmetic<G, A, M, X, T>,
    spread: &S,
    lottery: &Lottery<B, P>,
    parents: Seq<NetworkView<G>>,
    distribution: D,
    rate: Rate,
    amount: G,
    child: NetworkView<G>,
) -> bool where
    A: Fn(G, G) -> G,
    M: Fn(G, G) -> G,
    X: Fn(G, G) -> G,
    T: Fn(G) -> G,
    S: Fn(G) -> G,
    B: Fn(&Vec<G>) -> Option<D>,
    P: Fn(&D) -> usize,
 {
    exists|first: usize, second: usize|
        mates(arith, spread, lottery, parents, distribution, rate, amount, child, first, second)
}

/// `next` is a possible next generation of the parents under what the
/// lottery made of their scores: the parents themselves where it made no
/// distribution, else as many children, each bred of two parents drawn from
/// the distribution.
pub open spec fn succeeds<G, D, A, M, X, T, S, B, P>(
    arith: &Arithmetic<G, A, M, X, T>,
    spread: &S,
    lottery: &Lottery<B, P>,
    parents: Seq<NetworkView<G>>,
    distribution: Option<D>,
    rate: Rate,
    amount: G,
    next: Seq<NetworkView<G>>,
) -> bool where
    A: Fn(G, G) -> G,
    M: Fn(G, G) -> G,
    X: Fn(G, G) -> G,
    T: Fn(G) -> G,
    S: Fn(G) -> G,
    B: Fn(&Vec<G>) -> Option<D>,
    P: Fn(&D) -> usize,
 {
    match distribution {
        None => next == parents,
        Some(d) => {
            &&& next.len() == parents.len()
            &&& forall|k: int|
                0 <= k < next.len() ==> bred(
                    arith,
                    spread,
                    lottery,
                    parents,
                    d,
                    rate,
                    amount,
                    #[trigger] next[k],
                )
        },
    }
}

/// `next` is a possible next generation of the parents with the given
/// scores: what the lottery makes of the scores decides, as [`succeeds`]
/// says.
pub open spec fn regenerates<G, D, A, M, X, T, S, B, P>(
    arith: &Arithmetic<G, A, M, X, T>,
    spread: &S,
    lottery: &Lottery<B, P>,
    parents: Seq<NetworkView<G>>,
    scores: Seq<G>,
    rate: Rate,
    amount: G,
    next: Seq<NetworkView<G>>,
) -> bool where
    A: Fn(G, G) -> G,
    M: Fn(G, G) -> G,
    X: Fn(G, G) -> G,
    T: Fn(G) -> G,
    S: Fn(G) -> G,
    B: Fn(&Vec<G>) -> Option<D>,
    P: Fn(&D) -> usize,
 {
    exists|weights: Vec<G>, distribution: Option<D>|
        #![trigger lottery.build.ensures((&weights,), distribution)]
        {
            &&& weights@ == scores
            &&& lottery.build.ensures((&weights,), distribution)
            &&& succeeds(arith, spread, lottery, parents, distribution, rate, amount, next)
        }
}

/// Splits a scored population into its scores and its candidates, both in
/// its order.
fn unzip<G: Copy>(scored: Vec<(G, Brain<G>)>) -> (parts: (Vec<G>, Vec<Brain<G>>))
    ensures
        parts.0@ == scores_of(scored@),
        parts.1@.len() == scored@.len(),
        networks_of(parts.1@) == candidates_of(scored@),
{
    let mut scores: Vec<G> = Vec::new();
    let mut brains: Vec<Brain<G>> = Vec::new();
    for pair in iter: scored
        invariant
            scores.len() == iter.index(),
            brains.len() == iter.index(),
            forall|m: int| 0 <= m < iter.index() ==> scores@[m] == iter.seq()[m].0,
            forall|m: int| 0 <= m < iter.index() ==> brains@[m] == iter.seq()[m].1,
    {
        let (score, brain) = pair;
        scores.push(score);
        brains.push(brain);
    }
    assert(scores@ =~= scores_of(scored@));
    assert(networks_of(brains@) =~= candidates_of(scored@));
    (scores, brains)
}

/// Breeds the next generation from the parents and the distribution that
/// the lottery made of their scores.
///
/// Without a distribution the parents are the next generation. With one,
/// two parents are drawn from it for each child, with replacement, so that a
/// parent may be paired with itself, and the child is bred of the two; there
/// are as many children as parents.
pub fn breed<G: Copy, D, A, M, X, T, S, B, P>(
    parents: Vec<Brain<G>>,
    distribution: Option<D>,
    mutation_rate: Rate,
    mutation: G,
    arith: &Arithmetic<G, A, M, X, T>,
    spread: &S,
    lottery: &Lottery<B, P>,
) -> (next: Vec<Brain<G>>) where
    A: Fn(G, G) -> G,
    M: Fn(G, G) -> G,
    X: Fn(G, G) -> G,
    T: Fn(G) -> G,
    S: Fn(G) -> G,
    B: Fn(&Vec<G>) -> Option<D>,
    P: Fn(&D) -> usize,

    requires
        arith.lawful(),
        spread.requires((mutation,)),
        lottery.lawful::<G, D>(),
        uniform(networks_of(parents@)),
        distribution matches Some(d) ==> forall|index: usize|
            #[trigger] lottery.pick.ensures((&d,), index) ==> index < parents@.len(),
    ensures
        next@.len() == parents@.len(),
        succeeds(
            arith,
            spread,
            lottery,
            networks_of(parents@),
            distribution,
            mutation_rate,
            mutation,
            networks_of(next@),
        ),
        uniform(networks_of(next@)),
        forall|k: int|
            0 <= k < next@.len() ==> shares_shape(
                networks_of(parents@),
                #[trigger] networks_of(next@)[k],
            ),
{
    let weight_distribution = match distribution {
        None => {
            return parents;
        },
        Some(weight_distribution) => weight_distribution,
    };
    let mut new_b: Vec<Brain<G>> = Vec::new();
    while new_b.len() < parents.len()
        invariant
            arith.lawful(),
            spread.requires((mutation,)),
            lottery.lawful::<G, D>(),
            uniform(networks_of(parents@)),
            distribution == Some(weight_distribution),
            forall|index: usize| #[trigger]
                lottery.pick.ensures((&weight_distribution,), index) ==> index < parents@.len(),
            new_b.len() <= parents.len(),
            forall|k: int|
                0 <= k < new_b.len() ==> bred(
                    arith,
                    spread,
                    lottery,
                    networks_of(parents@),
                    weight_distribution,
                    mutation_rate,
                    mutation,
                    #[trigger] networks_of(new_b@)[k],
                ),
        decreases parents.len() - new_b.len(),
    {
        let ghost before = networks_of(new_b@);
        let parent1_index = (lottery.pick)(&weight_distribution);
        let parent2_index = (lottery.pick)(&weight_distribution);
        let parent1 = &parents[parent1_index];
        let parent2 = &parents[parent2_index];
        proof {
            assert(network_shape(networks_of(parents@)[parent1_index as int]) == network_shape(
                networks_of(parents@)[parent2_index as int],
            ));
        }
        let new_network = parent1.network.mutate(
            &parent2.network,
            mutation_rate,
            mutation,
            arith,
            spread,
        );
        new_b.push(Brain::from_network(new_network));
        proof {
            let k = new_b.len() - 1;
            assert(mates(
                arith,
                spread,
                lottery,
                networks_of(parents@),
                weight_distribution,
                mutation_rate,
                mutation,
                networks_of(new_b@)[k],
                parent1_index,
                parent2_index,
            ));
            assert forall|m: int| 0 <= m < new_b.len() implies bred(
                arith,
                spread,
                lottery,
                networks_of(parents@),
                weight_distribution,
                mutation_rate,
                mutation,
                #[trigger] networks_of(new_b@)[m],
            ) by {
                if m < k {
                    assert(networks_of(new_b@)[m] == before[m]);
                }
            }
        }
    }
    proof {
        lemma_children_keep_shape(
            arith,
            spread,
            lottery,
            networks_of(parents@),
            weight_distribution,
            mutation_rate,
            mutation,
            networks_of(new_b@),
        );
    }
    new_b
}

/// Children bred of parents of one shape have that shape.
pub proof fn lemma_children_keep_shape<G, D, A, M, X, T, S, B, P>(
    arith: &Arithmetic<G, A, M, X, T>,
    spread: &S,
    lottery: &Lottery<B, P>,
    parents: Seq<NetworkView<G>>,
    distribution: D,
    rate: Rate,
    amount: G,
    next: Seq<NetworkView<G>>,
) where
    A: Fn(G, G) -> G,
    M: Fn(G, G) -> G,
    X: Fn(G, G) -> G,
    T: Fn(G) -> G,
    S: Fn(G) -> G,
    B: Fn(&Vec<G>) -> Option<D>,
    P: Fn(&D) -> usize,

    requires
        uniform(parents),
        forall|k: int|
            0 <= k < next.len() ==> bred(
                arith,
                spread,
                lottery,
                parents,
                distribution,
                rate,
                amount,
                #[trigger] next[k],
            ),
    ensures
        uniform(next),
        forall|k: int| 0 <= k < next.len() ==> shares_shape(parents, #[trigger] next[k]),
{
    assert forall|k: int| 0 <= k < next.len() implies shares_shape(parents, #[trigger] next[k]) by {
        let child = next[k];
        assert(bred(arith, spread, lottery, parents, distribution, rate, amount, child));
        let (first, second) = choose|first: usize, second: usize|
            mates(
                arith,
                spread,
                lottery,
                parents,
                distribution,
                rate,
                amount,
                child,
                first,
                second,
            );
        lemma_offspring_keeps_shape(
            arith,
            spread,
            parents[first as int],
            parents[second as int],
            rate,
            amount,
            child,
        );
        assert forall|p: int| 0 <= p < parents.len() implies network_shape(child) == network_shape(
            #[trigger] parents[p],
        ) by {
            assert(network_shape(parents[first as int]) == network_shape(parents[p]));
        }
    }
    assert forall|i: int, j: int| 0 <= i < next.len() && 0 <= j < next.len() implies network_shape(
        #[trigger] next[i],
    ) == network_shape(#[trigger] next[j]) by {
        let child = next[i];
        assert(bred(arith, spread, lottery, parents, distribution, rate, amount, child));
        let (first, second) = choose|first: usize, second: usize|
            mates(
                arith,
                spread,
                lottery,
                parents,
                distribution,
                rate,
                amount,
                child,
                first,
                second,
            );
        assert(shares_shape(parents, next[i]));
        assert(shares_shape(parents, next[j]));
        assert(network_shape(next[i]) == network_shape(parents[first as int]));
        assert(network_shape(next[j]) == network_shape(parents[first as int]));
    }
}

/// Produces the next generation from a scored one.
///
/// The scores, as they are, weigh the candidates in a lottery. Where the
/// lottery can make a distribution of them, the next generation is bred by
/// [`breed`]: it replaces the old one whole, and a good candidate lives on
/// only in the children that the weights let it have. Where it cannot, as
/// when no score is positive, the candidates themselves, in their order, are
/// the next generation.
pub fn reproduce<G: Copy, D, A, M, X, T, S, B, P>(
    scored: Vec<(G, Brain<G>)>,
    mutation_rate: Rate,
    mutation: G,
    arith: &Arithmetic<G, A, M, X, T>,
    spread: &S,
    lottery: &Lottery<B, P>,
) -> (next: Vec<Brain<G>>) where
    A: Fn(G, G) -> G,
    M: Fn(G, G) -> G,
    X: Fn(G, G) -> G,
    T: Fn(G) -> G,
    S: Fn(G) -> G,
    B: Fn(&Vec<G>) -> Option<D>,
    P: Fn(&D) -> usize,

    requires
        arith.lawful(),
        spread.requires((mutation,)),
        lottery.lawful::<G, D>(),
        lottery.bounded::<G, D>(),
        uniform(candidates_of(scored@)),
    ensures
        next@.len() == scored@.len(),
        regenerates(
            arith,
            spread,
            lottery,
            candidates_of(scored@),
            scores_of(scored@),
            mutation_rate,
            mutation,
            networks_of(next@),
        ),
        uniform(networks_of(next@)),
        forall|k: int|
            0 <= k < next@.len() ==> shares_shape(
                candidates_of(scored@),
                #[trigger] networks_of(next@)[k],
            ),
{
    let (scores, brains) = unzip(scored);
    let maybe_weight_distribution = (lottery.build)(&scores);
    assert(scores@.len() == brains@.len());
    breed(brains, maybe_weight_distribution, mutation_rate, mutation, arith, spread, lottery)
}

} // verus!
