//! The world that episodes are run in, as far as the library describes it.

use vstd::prelude::*;

verus! {

/// The description of a world to generate: a square of `size` tiles a side.
#[derive(Clone, Copy, Debug)]
pub struct WorldGenerator {
    size: usize,
}

impl View for WorldGenerator {
    type V = nat;

    /// The side of the world, in tiles.
    closed spec fn view(&self) -> nat {
        self.size as nat
    }
}

impl WorldGenerator {
    /// The generator of a world of the given side.
    pub fn init(size: usize) -> (generator: Self)
        ensures
            generator@ == size,
    {
        WorldGenerator { size }
    }

    /// The side of the world, in tiles.
    pub fn size(&self) -> (size: usize)
        ensures
            size == self@,
    {
        self.size
    }
}

} // verus!
