//! The scalar operations that a network is evaluated with.

use vstd::prelude::*;

verus! {

/// The operations on the scalar type `G` that networks are built from,
/// together with its two distinguished values.
///
/// The library treats `G` as opaque. A caller who works on machine reals
/// fills this in with the hardware's operations; one who works on integers
/// or intervals fills it in accordingly. Contracts speak of an operation
/// through what it promises of its result.
pub struct Arithmetic<G, A, M, X, T> {
    /// The neutral element that a weighted sum starts from, and the floor of
    /// the rectifier.
    pub zero: G,
    /// The unit: the level of a raised input, and the bound of a fresh gene.
    pub one: G,
    /// Addition.
    pub add: A,
    /// Multiplication.
    pub mul: M,
    /// The larger of two values.
    pub max: X,
    /// The hyperbolic tangent.
    pub tanh: T,
}

impl<G, A, M, X, T> Arithmetic<G, A, M, X, T> where
    A: Fn(G, G) -> G,
    M: Fn(G, G) -> G,
    X: Fn(G, G) -> G,
    T: Fn(G) -> G,
 {
    /// Every operation accepts every argument.
    pub open spec fn lawful(&self) -> bool {
        &&& forall|a: G, b: G| #[trigger] self.add.requires((a, b))
        &&& forall|a: G, b: G| #[trigger] self.mul.requires((a, b))
        &&& forall|a: G, b: G| #[trigger] self.max.requires((a, b))
        &&& forall|a: G| #[trigger] self.tanh.requires((a,))
    }

    /// The result of every operation is determined by its arguments.
    pub open spec fn deterministic(&self) -> bool {
        &&& forall|a: G, b: G, r: G, s: G|
            #![trigger self.add.ensures((a, b), r), self.add.ensures((a, b), s)]
            self.add.ensures((a, b), r) && self.add.ensures((a, b), s) ==> r == s
        &&& forall|a: G, b: G, r: G, s: G|
            #![trigger self.mul.ensures((a, b), r), self.mul.ensures((a, b), s)]
            self.mul.ensures((a, b), r) && self.mul.ensures((a, b), s) ==> r == s
        &&& forall|a: G, b: G, r: G, s: G|
            #![trigger self.max.ensures((a, b), r), self.max.ensures((a, b), s)]
            self.max.ensures((a, b), r) && self.max.ensures((a, b), s) ==> r == s
        &&& forall|a: G, r: G, s: G|
            #![trigger self.tanh.ensures((a,), r), self.tanh.ensures((a,), s)]
            self.tanh.ensures((a,), r) && self.tanh.ensures((a,), s) ==> r == s
    }
}

} // verus!
