//! The training loop: generations of evaluation and reproduction.

use crate::arithmetic::Arithmetic;
use crate::brain::Brain;
use crate::chance::{Lottery, Rate};
use crate::genetics::{
    all_conform, bred, candidates_of, lemma_conforming_uniform, mates, networks_of, regenerates,
    reproduce, scores_of, succeeds,
};
use crate::network::{
    conforms, fresh, lemma_conforming_takes_inputs, lemma_offspring_conforms, network_fault,
    LayerTopology, Network, NetworkView,
};
use vstd::prelude::*;

verus! {

/// Why a training came to no network.
#[derive(Clone, Copy, PartialEq, Eq, Structural, Debug)]
pub enum TrainingError {
    /// The evaluation of a generation gave `found` scores for `expected`
    /// candidates.
    EpisodeFailure { expected: usize, found: usize },
}

/// `ranks[i]` is a possible rank of `scores[i]`.
pub open spec fn is_rank<G, R>(rank: &R, scores: Seq<G>, ranks: Seq<i64>, i: int) -> bool where
    R: Fn(&G) -> i64,
 {
    rank.ensures((&scores[i],), ranks[i])
}

/// `ranks` are possible ranks of the scores, in their order.
pub open spec fn ranked<G, R>(rank: &R, scores: Seq<G>, ranks: Seq<i64>) -> bool where
    R: Fn(&G) -> i64,
 {
    &&& ranks.len() == scores.len()
    &&& forall|i: int| 0 <= i < scores.len() ==> #[trigger] is_rank(rank, scores, ranks, i)
}

/// `best` is the first index of the greatest rank.
pub open spec fn first_best(ranks: Seq<i64>, best: int) -> bool {
    &&& 0 <= best < ranks.len()
    &&& forall|i: int| 0 <= i < ranks.len() ==> ranks[i] <= ranks[best]
    &&& forall|i: int| 0 <= i < best ==> ranks[i] < ranks[best]
}

/// `best` is the index of a best score: the first whose rank, as `rank`
/// gave it, is the greatest.
pub open spec fn leads<G, R>(rank: &R, scores: Seq<G>, best: int) -> bool where R: Fn(&G) -> i64 {
    exists|ranks: Seq<i64>|
        #![trigger ranked(rank, scores, ranks)]
        ranked(rank, scores, ranks) && first_best(ranks, best)
}

/// Finds the best of the scores: each score is ranked once, in order, and
/// the first of the greatest rank wins.
pub fn best_candidate<G, R>(scores: &Vec<G>, rank: &R) -> (best: usize) where R: Fn(&G) -> i64
    requires
        scores@.len() > 0,
        forall|score: G| #[trigger] rank.requires((&score,)),
    ensures
        best < scores@.len(),
        leads(rank, scores@, best as int),
{
    let mut best: usize = 0;
    let mut best_rank = rank(&scores[0]);
    let ghost mut ranks: Seq<i64> = seq![best_rank];
    let mut i: usize = 1;
    while i < scores.len()
        invariant
            forall|score: G| #[trigger] rank.requires((&score,)),
            1 <= i <= scores.len(),
            ranks.len() == i,
            best < i,
            ranks[best as int] == best_rank,
            forall|m: int| 0 <= m < i ==> #[trigger] is_rank(rank, scores@, ranks, m),
            forall|m: int| 0 <= m < i ==> ranks[m] <= best_rank,
            forall|m: int| 0 <= m < best ==> ranks[m] < best_rank,
        decreases scores.len() - i,
    {
        let this_rank = rank(&scores[i]);
        proof {
            let longer = ranks.push(this_rank);
            assert forall|m: int| 0 <= m < i + 1 implies #[trigger] is_rank(
                rank,
                scores@,
                longer,
                m,
            ) by {
                if m < i {
                    assert(is_rank(rank, scores@, ranks, m));
                }
            }
            ranks = longer;
        }
        if this_rank > best_rank {
            best = i;
            best_rank = this_rank;
        }
        i += 1;
    }
    assert(ranked(rank, scores@, ranks));
    best
}

/// `scores[i]` is a possible score of the world after tick `i`.
pub open spec fn is_tick<G, K>(tick: &K, scores: Seq<G>, i: int) -> bool where K: Fn() -> G {
    tick.ensures((), scores[i])
}

/// `score` is a possible fitness of an episode of the given number of
/// ticks: the score of the world after the last tick, whatever it was after
/// the ticks before, and `initial` for an episode without a tick.
pub open spec fn scores_episode<G, K>(
    tick: &K,
    episode_ticks: usize,
    initial: G,
    score: G,
) -> bool where K: Fn() -> G {
    exists|scores: Seq<G>|
        #![trigger scores.len()]
        {
            &&& scores.len() == episode_ticks
            &&& forall|i: int| 0 <= i < episode_ticks ==> #[trigger] is_tick(tick, scores, i)
            &&& score == if episode_ticks == 0 {
                initial
            } else {
                scores[episode_ticks - 1]
            }
        }
}

/// Runs one episode: exactly `episode_ticks` ticks of the world, each of
/// which lets the agent act once and gives the score of the world after it.
///
/// The fitness of the episode is the score after the last tick, not the
/// best score on the way: a score that fell stays fallen.
pub fn run_episode<G: Copy, K>(episode_ticks: usize, initial: G, tick: &K) -> (score: G) where
    K: Fn() -> G,

    requires
        tick.requires(()),
    ensures
        scores_episode(tick, episode_ticks, initial, score),
        episode_ticks == 0 ==> score == initial,
        episode_ticks > 0 ==> tick.ensures((), score),
{
    let mut score = initial;
    let ghost mut scores: Seq<G> = Seq::empty();
    let mut done: usize = 0;
    while done < episode_ticks
        invariant
            tick.requires(()),
            done <= episode_ticks,
            scores.len() == done,
            forall|i: int| 0 <= i < done ==> #[trigger] is_tick(tick, scores, i),
            score == if done == 0 {
                initial
            } else {
                scores[done - 1]
            },
            done > 0 ==> tick.ensures((), score),
        decreases episode_ticks - done,
    {
        score = tick();
        proof {
            let longer = scores.push(score);
            assert forall|i: int| 0 <= i < done + 1 implies #[trigger] is_tick(tick, longer, i) by {
                if i < done {
                    assert(is_tick(tick, scores, i));
                }
            }
            scores = longer;
        }
        done += 1;
    }
    score
}

/// A population of `population_size` brains, each with a fresh network of
/// the topology.
fn populate<G: Copy, A, M, X, T, S>(
    population_size: usize,
    topology: &[LayerTopology],
    arith: &Arithmetic<G, A, M, X, T>,
    spread: &S,
) -> (population: Vec<Brain<G>>) where
    A: Fn(G, G) -> G,
    M: Fn(G, G) -> G,
    X: Fn(G, G) -> G,
    T: Fn(G) -> G,
    S: Fn(G) -> G,

    requires
        topology@.len() > 1,
        spread.requires((arith.one,)),
    ensures
        founded(arith, spread, population@, population_size, topology@),
{
    let mut brains: Vec<Brain<G>> = Vec::new();
    let mut k: usize = 0;
    while k < population_size
        invariant
            topology@.len() > 1,
            spread.requires((arith.one,)),
            k <= population_size,
            brains.len() == k,
            forall|m: int| 0 <= m < k ==> fresh(arith, spread, (#[trigger] brains@[m])@, topology@),
        decreases population_size - k,
    {
        brains.push(Brain::from_network(Network::random(topology, arith, spread)));
        k += 1;
    }
    brains
}

/// Pairs each candidate with its score, in their order.
fn zip<G: Copy>(scores: Vec<G>, population: Vec<Brain<G>>) -> (scored: Vec<(G, Brain<G>)>)
    requires
        scores@.len() == population@.len(),
    ensures
        scored@.len() == population@.len(),
        scores_of(scored@) == scores@,
        candidates_of(scored@) == networks_of(population@),
{
    let mut scored: Vec<(G, Brain<G>)> = Vec::new();
    let mut i: usize = 0;
    for brain in iter: population
        invariant
            scores@.len() == iter.seq().len(),
            i == iter.index(),
            scored.len() == i,
            forall|m: int| 0 <= m < i ==> scored@[m].0 == scores@[m],
            forall|m: int| 0 <= m < i ==> scored@[m].1 == iter.seq()[m],
    {
        assert(i < scores.len());
        scored.push((scores[i], brain));
        i += 1;
    }
    assert(scores_of(scored@) =~= scores@);
    assert(candidates_of(scored@) =~= networks_of(population@));
    scored
}

/// The population is a first generation: `population_size` brains, each
/// with a fresh network of the topology.
pub open spec fn founded<G, A, M, X, T, S>(
    arith: &Arithmetic<G, A, M, X, T>,
    spread: &S,
    population: Seq<Brain<G>>,
    population_size: usize,
    topology: Seq<LayerTopology>,
) -> bool where
    A: Fn(G, G) -> G,
    M: Fn(G, G) -> G,
    X: Fn(G, G) -> G,
    T: Fn(G) -> G,
    S: Fn(G) -> G,
 {
    &&& population.len() == population_size
    &&& forall|k: int|
        0 <= k < population.len() ==> fresh(arith, spread, (#[trigger] population[k])@, topology)
}

/// Generation `g` was evaluated to `scores[g]`, one score for each
/// candidate, and reproduced into generation `g + 1`.
pub open spec fn is_round<G, D, A, M, X, T, S, B, P, E>(
    arith: &Arithmetic<G, A, M, X, T>,
    spread: &S,
    lottery: &Lottery<B, P>,
    evaluate: &E,
    populations: Seq<Vec<Brain<G>>>,
    scores: Seq<Vec<G>>,
    episode_ticks: usize,
    world_seed: u64,
    rate: Rate,
    amount: G,
    g: int,
) -> bool where
    A: Fn(G, G) -> G,
    M: Fn(G, G) -> G,
    X: Fn(G, G) -> G,
    T: Fn(G) -> G,
    S: Fn(G) -> G,
    B: Fn(&Vec<G>) -> Option<D>,
    P: Fn(&D) -> usize,
    E: Fn(&Vec<Brain<G>>, usize, u64) -> Vec<G>,
 {
    &&& evaluate.ensures((&populations[g], episode_ticks, world_seed), scores[g])
    &&& scores[g]@.len() == populations[g]@.len()
    &&& regenerates(
        arith,
        spread,
        lottery,
        networks_of(populations[g]@),
        scores[g]@,
        rate,
        amount,
        networks_of(populations[g + 1]@),
    )
}

/// `populations` and `scores` are the course of a training over the given
/// number of rounds: a first generation, and then round after round of
/// evaluation and reproduction.
pub open spec fn evolves<G, D, A, M, X, T, S, B, P, E>(
    arith: &Arithmetic<G, A, M, X, T>,
    spread: &S,
    lottery: &Lottery<B, P>,
    evaluate: &E,
    populations: Seq<Vec<Brain<G>>>,
    scores: Seq<Vec<G>>,
    population_size: usize,
    topology: Seq<LayerTopology>,
    rounds: nat,
    episode_ticks: usize,
    world_seed: u64,
    rate: Rate,
    amount: G,
) -> bool where
    A: Fn(G, G) -> G,
    M: Fn(G, G) -> G,
    X: Fn(G, G) -> G,
    T: Fn(G) -> G,
    S: Fn(G) -> G,
    B: Fn(&Vec<G>) -> Option<D>,
    P: Fn(&D) -> usize,
    E: Fn(&Vec<Brain<G>>, usize, u64) -> Vec<G>,
 {
    &&& populations.len() == rounds + 1
    &&& scores.len() == rounds
    &&& founded(arith, spread, populations[0]@, population_size, topology)
    &&& forall|g: int|
        0 <= g < rounds ==> #[trigger] is_round(
            arith,
            spread,
            lottery,
            evaluate,
            populations,
            scores,
            episode_ticks,
            world_seed,
            rate,
            amount,
            g,
        )
}

/// `network` is the network of candidate `best`, the best of the last
/// generation that was evaluated in the course of the training that
/// `populations` and `scores` are.
pub open spec fn crowns<G, D, A, M, X, T, S, B, P, E, R>(
    arith: &Arithmetic<G, A, M, X, T>,
    spread: &S,
    lottery: &Lottery<B, P>,
    evaluate: &E,
    rank: &R,
    populations: Seq<Vec<Brain<G>>>,
    scores: Seq<Vec<G>>,
    best: int,
    population_size: usize,
    topology: Seq<LayerTopology>,
    generations: usize,
    episode_ticks: usize,
    world_seed: u64,
    rate: Rate,
    amount: G,
    network: NetworkView<G>,
) -> bool where
    A: Fn(G, G) -> G,
    M: Fn(G, G) -> G,
    X: Fn(G, G) -> G,
    T: Fn(G) -> G,
    S: Fn(G) -> G,
    B: Fn(&Vec<G>) -> Option<D>,
    P: Fn(&D) -> usize,
    E: Fn(&Vec<Brain<G>>, usize, u64) -> Vec<G>,
    R: Fn(&G) -> i64,
 {
    &&& evolves(
        arith,
        spread,
        lottery,
        evaluate,
        populations,
        scores,
        population_size,
        topology,
        generations as nat,
        episode_ticks,
        world_seed,
        rate,
        amount,
    )
    &&& leads(rank, scores[generations - 1]@, best)
    &&& network == populations[generations - 1]@[best]@
}

/// `network` is a possible result of a training: the network of the best
/// candidate of the last generation that was evaluated.
pub open spec fn trained<G, D, A, M, X, T, S, B, P, E, R>(
    arith: &Arithmetic<G, A, M, X, T>,
    spread: &S,
    lottery: &Lottery<B, P>,
    evaluate: &E,
    rank: &R,
    population_size: usize,
    topology: Seq<LayerTopology>,
    generations: usize,
    episode_ticks: usize,
    world_seed: u64,
    rate: Rate,
    amount: G,
    network: NetworkView<G>,
) -> bool where
    A: Fn(G, G) -> G,
    M: Fn(G, G) -> G,
    X: Fn(G, G) -> G,
    T: Fn(G) -> G,
    S: Fn(G) -> G,
    B: Fn(&Vec<G>) -> Option<D>,
    P: Fn(&D) -> usize,
    E: Fn(&Vec<Brain<G>>, usize, u64) -> Vec<G>,
    R: Fn(&G) -> i64,
 {
    exists|populations: Seq<Vec<Brain<G>>>, scores: Seq<Vec<G>>, best: int|
        crowns(
            arith,
            spread,
            lottery,
            evaluate,
            rank,
            populations,
            scores,
            best,
            population_size,
            topology,
            generations,
            episode_ticks,
            world_seed,
            rate,
            amount,
            network,
        )
}

/// An evaluation gave a number of scores other than the number of
/// candidates it was given.
pub open spec fn miscounts<G, E>(
    evaluate: &E,
    episode_ticks: usize,
    world_seed: u64,
    expected: usize,
    found: usize,
) -> bool where E: Fn(&Vec<Brain<G>>, usize, u64) -> Vec<G> {
    exists|population: Vec<Brain<G>>, scores: Vec<G>|
        #![trigger evaluate.ensures((&population, episode_ticks, world_seed), scores)]
        {
            &&& evaluate.ensures((&population, episode_ticks, world_seed), scores)
            &&& population@.len() == expected
            &&& scores@.len() == found
        }
}

/// Every evaluation gives one score for each candidate.
pub open spec fn counts<G, E>(evaluate: &E, episode_ticks: usize, world_seed: u64) -> bool where
    E: Fn(&Vec<Brain<G>>, usize, u64) -> Vec<G>,
 {
    forall|population: Vec<Brain<G>>, scores: Vec<G>|
        #![trigger evaluate.ensures((&population, episode_ticks, world_seed), scores)]
        evaluate.ensures((&population, episode_ticks, world_seed), scores) ==> scores@.len()
            == population@.len()
}

/// The next generation of candidates that are laid out as a topology says
/// is laid out so too.
pub proof fn lemma_generation_conforms<G, D, A, M, X, T, S, B, P>(
    arith: &Arithmetic<G, A, M, X, T>,
    spread: &S,
    lottery: &Lottery<B, P>,
    parents: Seq<NetworkView<G>>,
    scores: Seq<G>,
    rate: Rate,
    amount: G,
    next: Seq<NetworkView<G>>,
    topology: Seq<LayerTopology>,
) where
    A: Fn(G, G) -> G,
    M: Fn(G, G) -> G,
    X: Fn(G, G) -> G,
    T: Fn(G) -> G,
    S: Fn(G) -> G,
    B: Fn(&Vec<G>) -> Option<D>,
    P: Fn(&D) -> usize,

    requires
        regenerates(arith, spread, lottery, parents, scores, rate, amount, next),
        all_conform(parents, topology),
    ensures
        all_conform(next, topology),
        next.len() == parents.len(),
{
    let (weights, distribution) = choose|weights: Vec<G>, distribution: Option<D>|
        #![trigger lottery.build.ensures((&weights,), distribution)]
        {
            &&& weights@ == scores
            &&& lottery.build.ensures((&weights,), distribution)
            &&& succeeds(arith, spread, lottery, parents, distribution, rate, amount, next)
        };
    match distribution {
        None => {},
        Some(d) => {
            assert forall|k: int| 0 <= k < next.len() implies conforms(
                #[trigger] next[k],
                topology,
            ) by {
                assert(bred(arith, spread, lottery, parents, d, rate, amount, next[k]));
                let (first, second) = choose|first: usize, second: usize|
                    mates(arith, spread, lottery, parents, d, rate, amount, next[k], first, second);
                lemma_offspring_conforms(
                    arith,
                    spread,
                    parents[first as int],
                    parents[second as int],
                    rate,
                    amount,
                    next[k],
                    topology,
                );
            }
        },
    }
}

/// Trains a network by evolution.
///
/// A first generation of `population_size` fresh brains of the topology is
/// made. Then, `generations` times over, the generation is evaluated, all
/// candidates at once and all with the same `episode_ticks` and
/// `world_seed`, and reproduced from the scores. The result is the network
/// of the best candidate of the last generation that was evaluated, by the
/// ranks that `rank` gives the scores; of equals, the first.
///
/// The network that results is laid out as the topology says, and so takes
/// as many inputs as its first entry says.
///
/// The training fails when an evaluation gives a number of scores other than
/// the number of candidates, and only then.
pub fn train<G: Copy, D, A, M, X, T, S, B, P, E, R>(
    population_size: usize,
    topology: &[LayerTopology],
    generations: usize,
    episode_ticks: usize,
    mutation_rate: Rate,
    mutation: G,
    world_seed: u64,
    arith: &Arithmetic<G, A, M, X, T>,
    spread: &S,
    lottery: &Lottery<B, P>,
    evaluate: &E,
    rank: &R,
) -> (outcome: Result<Network<G>, TrainingError>) where
    A: Fn(G, G) -> G,
    M: Fn(G, G) -> G,
    X: Fn(G, G) -> G,
    T: Fn(G) -> G,
    S: Fn(G) -> G,
    B: Fn(&Vec<G>) -> Option<D>,
    P: Fn(&D) -> usize,
    E: Fn(&Vec<Brain<G>>, usize, u64) -> Vec<G>,
    R: Fn(&G) -> i64,

    requires
        population_size > 0,
        generations > 0,
        topology@.len() > 1,
        arith.lawful(),
        spread.requires((arith.one,)),
        spread.requires((mutation,)),
        lottery.lawful::<G, D>(),
        lottery.bounded::<G, D>(),
        forall|population: Vec<Brain<G>>| #[trigger]
            evaluate.requires((&population, episode_ticks, world_seed)),
        forall|score: G| #[trigger] rank.requires((&score,)),
    ensures
        match outcome {
            Ok(network) => {
                &&& conforms(network@, topology@)
                &&& network_fault(network@, topology@[0].neurons as nat) is None
                &&& trained(
                    arith,
                    spread,
                    lottery,
                    evaluate,
                    rank,
                    population_size,
                    topology@,
                    generations,
                    episode_ticks,
                    world_seed,
                    mutation_rate,
                    mutation,
                    network@,
                )
            },
            Err(TrainingError::EpisodeFailure { expected, found }) => {
                &&& expected == population_size
                &&& found != expected
                &&& miscounts(evaluate, episode_ticks, world_seed, expected, found)
            },
        },
        counts(evaluate, episode_ticks, world_seed) ==> outcome is Ok,
{
    let mut brains = populate(population_size, topology, arith, spread);
    let ghost mut populations: Seq<Vec<Brain<G>>> = seq![brains];
    let ghost mut all_scores: Seq<Vec<G>> = Seq::empty();
    let mut generation: usize = 0;
    loop
        invariant
            population_size > 0,
            topology@.len() > 1,
            arith.lawful(),
            spread.requires((arith.one,)),
            spread.requires((mutation,)),
            lottery.lawful::<G, D>(),
            lottery.bounded::<G, D>(),
            forall|population: Vec<Brain<G>>| #[trigger]
                evaluate.requires((&population, episode_ticks, world_seed)),
            forall|score: G| #[trigger] rank.requires((&score,)),
            generation < generations,
            brains@.len() == population_size,
            all_conform(networks_of(brains@), topology@),
            populations[generation as int] == brains,
            evolves(
                arith,
                spread,
                lottery,
                evaluate,
                populations,
                all_scores,
                population_size,
                topology@,
                generation as nat,
                episode_ticks,
                world_seed,
                mutation_rate,
                mutation,
            ),
        decreases generations - generation,
    {
        let scores = evaluate(&brains, episode_ticks, world_seed);
        if scores.len() != brains.len() {
            return Err(
                TrainingError::EpisodeFailure { expected: brains.len(), found: scores.len() },
            );
        }
        let best = best_candidate(&scores, rank);
        let champion = brains[best].network.clone();
        let ghost evaluated = brains;
        let ghost given = scores;
        proof {
            lemma_conforming_uniform(networks_of(brains@), topology@);
            assert(conforms(networks_of(brains@)[best as int], topology@));
        }
        let scored = zip(scores, brains);
        brains = reproduce(scored, mutation_rate, mutation, arith, spread, lottery);
        proof {
            lemma_generation_conforms(
                arith,
                spread,
                lottery,
                networks_of(evaluated@),
                given@,
                mutation_rate,
                mutation,
                networks_of(brains@),
                topology@,
            );
            let longer = populations.push(brains);
            let more = all_scores.push(given);
            assert forall|g: int| 0 <= g < generation + 1 implies #[trigger] is_round(
                arith,
                spread,
                lottery,
                evaluate,
                longer,
                more,
                episode_ticks,
                world_seed,
                mutation_rate,
                mutation,
                g,
            ) by {
                if g < generation {
                    assert(is_round(
                        arith,
                        spread,
                        lottery,
                        evaluate,
                        populations,
                        all_scores,
                        episode_ticks,
                        world_seed,
                        mutation_rate,
                        mutation,
                        g,
                    ));
                }
            }
            populations = longer;
            all_scores = more;
        }
        generation += 1;
        if generation == generations {
            proof {
                lemma_conforming_takes_inputs(champion@, topology@);
                assert(populations[generations - 1] == evaluated);
                assert(all_scores[generations - 1] == given);
                assert(champion@ == networks_of(evaluated@)[best as int]);
                assert(leads(rank, all_scores[generations - 1]@, best as int));
                assert(crowns(
                    arith,
                    spread,
                    lottery,
                    evaluate,
                    rank,
                    populations,
                    all_scores,
                    best as int,
                    population_size,
                    topology@,
                    generations,
                    episode_ticks,
                    world_seed,
                    mutation_rate,
                    mutation,
                    champion@,
                ));
            }
            return Ok(champion);
        }
    }
}

} // verus!
