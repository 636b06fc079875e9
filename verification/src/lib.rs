//! Neuro-evolution of small feed-forward networks.
//!
//! A population of candidate networks is scored, one episode each, and bred
//! into the next generation by fitness-proportional selection, uniform
//! crossover and per-gene mutation.
//!
//! The library is generic over the scalar type `G` of genes and scores. It
//! never computes on a scalar itself: sums, products and the activation
//! functions come from an [`arithmetic::Arithmetic`] that the caller supplies,
//! and so do the random draws that yield or weigh a scalar. What the library
//! owns, and proves, is everything around them: the shapes of networks, the
//! order of evaluation, who is chosen, what is kept and what is rejected.
//!
//! - [`arithmetic`]: the scalar operations a caller supplies.
//! - [`chance`]: probabilities and the draws that decide with them.
//! - [`network`]: networks, their evaluation and their recombination.
//! - [`genetics`]: from a scored generation to the next.
//! - [`brain`]: the policy of an agent.
//! - [`training`]: episodes and the generations of a training.
//! - [`world`]: the description of a world to generate.

pub mod arithmetic;
pub mod brain;
pub mod chance;
pub mod genetics;
pub mod network;
pub mod training;
pub mod world;
