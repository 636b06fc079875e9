//! Probabilities, and the draws that decide with them.

use rand::Rng;
use vstd::prelude::*;

verus! {

/// A probability, as a ratio of two integers: `numerator` in `denominator`.
///
/// A rate is always well formed: its denominator is positive and its
/// numerator does not exceed it.
#[derive(Clone, Copy, Debug)]
pub struct Rate {
    numerator: u32,
    denominator: u32,
}

impl Rate {
    #[verifier::type_invariant]
    spec fn well_formed(self) -> bool {
        0 < self.denominator && self.numerator <= self.denominator
    }

    /// The numerator of the ratio.
    pub closed spec fn numerator_of(self) -> nat {
        self.numerator as nat
    }

    /// The denominator of the ratio.
    pub closed spec fn denominator_of(self) -> nat {
        self.denominator as nat
    }

    /// The probability is zero.
    pub open spec fn never(self) -> bool {
        self.numerator_of() == 0
    }

    /// The probability is one.
    pub open spec fn always(self) -> bool {
        self.numerator_of() == self.denominator_of()
    }

    /// The rate `numerator` in `denominator`, if that is a probability.
    pub fn new(numerator: u32, denominator: u32) -> (rate: Option<Rate>)
        ensures
            rate is Some <==> 0 < denominator && numerator <= denominator,
            rate matches Some(r) ==> r.numerator_of() == numerator && r.denominator_of()
                == denominator,
    {
        if 0 < denominator && numerator <= denominator {
            Some(Rate { numerator, denominator })
        } else {
            None
        }
    }

    /// The rate of a fair coin: one in two.
    pub fn half() -> (rate: Rate)
        ensures
            rate.numerator_of() == 1,
            rate.denominator_of() == 2,
    {
        Rate { numerator: 1, denominator: 2 }
    }

    /// The numerator of the ratio.
    pub fn numerator(&self) -> (n: u32)
        ensures
            n == self.numerator_of(),
    {
        self.numerator
    }

    /// The denominator of the ratio.
    pub fn denominator(&self) -> (d: u32)
        ensures
            d == self.denominator_of(),
            d > 0,
            self.numerator_of() <= d,
    {
        proof {
            use_type_invariant(self);
        }
        self.denominator
    }

    /// Decides at random, with this probability of `true`.
    ///
    /// A rate of zero never hits and a rate of one always does; of any other
    /// rate either outcome is possible.
    pub fn draw(&self) -> (hit: bool)
        ensures
            self.never() ==> !hit,
            self.always() ==> hit,
    {
        proof {
            use_type_invariant(self);
        }
        bernoulli(self.numerator, self.denominator)
    }
}

/// One draw of `rand::Rng::gen_ratio` on the thread's generator
/// (`rand::thread_rng`): `true` with a chance of `numerator` in `denominator`.
///
/// The generator's documentation promises `false` when the numerator is zero
/// and `true` when numerator and denominator are equal, and names as its
/// panics a zero denominator and a numerator above the denominator. Those
/// promises are taken on trust here; nothing else is claimed of the result.
#[verifier::external_body]
fn bernoulli(numerator: u32, denominator: u32) -> (hit: bool)
    requires
        0 < denominator,
        numerator <= denominator,
    ensures
        numerator == 0 ==> !hit,
        numerator == denominator ==> hit,
{
    rand::thread_rng().gen_ratio(numerator, denominator)
}

/// Weighted drawing of an index: `build` makes a distribution over the
/// indices of a list of weights, in which an index is as likely as its weight
/// is large, and `pick` draws an index from such a distribution.
///
/// `build` yields nothing where no distribution can be made of the weights:
/// of none at all, of one that is negative, of none that is positive.
pub struct Lottery<B, P> {
    pub build: B,
    pub pick: P,
}

impl<B, P> Lottery<B, P> {
    /// Both operations accept every argument.
    pub open spec fn lawful<G, D>(&self) -> bool where
        B: Fn(&Vec<G>) -> Option<D>,
        P: Fn(&D) -> usize,
     {
        &&& forall|weights: Vec<G>| #[trigger] self.build.requires((&weights,))
        &&& forall|distribution: D| #[trigger] self.pick.requires((&distribution,))
    }

    /// An index drawn from a distribution is the index of one of the weights
    /// that the distribution was made of.
    pub open spec fn bounded<G, D>(&self) -> bool where
        B: Fn(&Vec<G>) -> Option<D>,
        P: Fn(&D) -> usize,
     {
        forall|weights: Vec<G>, distribution: D, index: usize|
            #![trigger
                self.build.ensures((&weights,), Some(distribution)),
                self.pick.ensures((&distribution,), index),
            ]
            self.build.ensures((&weights,), Some(distribution)) && self.pick.ensures(
                (&distribution,),
                index,
            ) ==> index < weights@.len()
    }
}

} // verus!
