use vstd::prelude::*;

use rand::rngs::StdRng;
use rand::seq::SliceRandom;
use rand::{Rng, SeedableRng};

verus! {

#[verifier::external_type_specification]
#[verifier::external_body]
pub struct ExStdRng(StdRng);

/// `Clone::clone` of `rand::rngs::StdRng`, which copies the generator state;
/// nothing is stated of the copy.
pub assume_specification[ <StdRng as Clone>::clone ](rng: &StdRng) -> StdRng;

/// One call made on the engine's generator and what it returned.
#[derive(Clone, Copy, Debug)]
pub enum RngDraw {
    /// A shuffle of the given ids, and the order they came out in.
    Shuffle([i8; 7], [i8; 7]),
    /// An index drawn below the given bound, and the index drawn.
    Index(usize, usize),
}

/// The engine's source of randomness: bag shuffles and garbage hole columns.
/// Besides the generator it records the seed it started from and every call
/// made on it since.
#[derive(Clone)]
pub struct EngineRng {
    inner: StdRng,
    origin: Ghost<u64>,
    log: Ghost<Seq<RngDraw>>,
}

impl EngineRng {
    /// The seed this generator was started from.
    pub closed spec fn seed(self) -> u64 {
        self.origin@
    }

    /// The calls made on this generator since it was started, oldest first.
    pub closed spec fn draws(self) -> Seq<RngDraw> {
        self.log@
    }

    /// A generator started from `seed` by `rand::rngs::StdRng::seed_from_u64`,
    /// with no call made on it yet. Nothing is stated of the stream it
    /// produces beyond that it is the one `seed` starts.
    #[verifier::external_body]
    pub fn seeded(seed: u64) -> (r: Self)
        ensures
            r.seed() == seed,
            r.draws() == Seq::<RngDraw>::empty(),
    {
        Self { inner: StdRng::seed_from_u64(seed), origin: Ghost(seed), log: Ghost(Seq::empty()) }
    }

    /// Shuffles the seven ids in place with `rand::seq::SliceRandom::shuffle`,
    /// which only swaps entries: the result is a permutation of the input.
    /// The shuffle is recorded; which permutation comes out is not stated.
    #[verifier::external_body]
    pub fn shuffle_bag(&mut self, pieces: &mut [i8; 7])
        ensures
            final(pieces)@.to_multiset() == old(pieces)@.to_multiset(),
            final(self).seed() == old(self).seed(),
            final(self).draws() == old(self).draws().push(RngDraw::Shuffle(*old(pieces), *final(pieces))),
    {
        pieces.shuffle(&mut self.inner);
    }

    /// An index drawn with `rand::Rng::gen_range(0..upper)`, which panics on an
    /// empty range and otherwise returns a value of the range. The draw is
    /// recorded; which index comes out is not stated.
    #[verifier::external_body]
    pub fn choose_index(&mut self, upper: usize) -> (r: usize)
        requires
            upper > 0,
        ensures
            r < upper,
            final(self).seed() == old(self).seed(),
            final(self).draws() == old(self).draws().push(RngDraw::Index(upper, r)),
    {
        self.inner.gen_range(0..upper)
    }
}

impl Default for EngineRng {
    fn default() -> (r: Self)
        ensures
            r.seed() == 0,
            r.draws() == Seq::<RngDraw>::empty(),
    {
        Self::seeded(0)
    }
}

} // verus!
