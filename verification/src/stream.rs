use vstd::prelude::*;

verus! {

/// What `fastrand::Rng::u64` draws from the range `..bound` on a generator
/// whose state is `state`: the number drawn, and the state it leaves.
pub uninterp spec fn drawn_below(state: u64, bound: u64) -> (u64, u64);

/// What `fastrand::Rng::u8` draws from the range `0..=1` on a generator whose
/// state is `state`: the number drawn, and the state it leaves.
pub uninterp spec fn drawn_coin(state: u64) -> (u8, u64);

/// `fastrand::Rng::u64` on the range `..bound`, on a generator made by
/// `Rng::with_seed(state)`; `Rng::get_seed` reads the state afterwards. The
/// number drawn lies in the range. An empty range panics, so `bound` is not 0.
#[verifier::external_body]
fn draw_below(state: u64, bound: u64) -> (drawn: (u64, u64))
    requires
        bound > 0,
    ensures
        drawn == drawn_below(state, bound),
        drawn.0 < bound,
{
    let mut generator = fastrand::Rng::with_seed(state);
    let number = generator.u64(..bound);
    (number, generator.get_seed())
}

/// `fastrand::Rng::u8` on the range `0..=1`, on a generator made by
/// `Rng::with_seed(state)`; `Rng::get_seed` reads the state afterwards. The
/// number drawn is 0 or 1.
#[verifier::external_body]
fn draw_coin(state: u64) -> (drawn: (u8, u64))
    ensures
        drawn == drawn_coin(state),
        drawn.0 <= 1,
{
    let mut generator = fastrand::Rng::with_seed(state);
    let number = generator.u8(0..=1);
    (number, generator.get_seed())
}

/// A seeded stream of random numbers, owned by one search run. Its state is
/// the state of the generator that makes the draws.
#[derive(Clone, Copy, Debug, PartialEq, Eq, Structural)]
pub struct RandomStream {
    pub state: u64,
}

impl RandomStream {
    /// A stream that starts from `seed`.
    pub fn with_seed(seed: u64) -> (stream: Self)
        ensures
            stream.state == seed,
    {
        RandomStream { state: seed }
    }

    /// Draws an index below `bound`, which is not 0.
    pub fn index_below(&mut self, bound: usize) -> (index: usize)
        requires
            bound > 0,
        ensures
            index < bound,
            index == drawn_below(old(self).state, bound as u64).0,
            final(self).state == drawn_below(old(self).state, bound as u64).1,
    {
        let (number, state) = draw_below(self.state, bound as u64);
        self.state = state;
        number as usize
    }

    /// Draws 0 or 1.
    pub fn coin(&mut self) -> (side: u8)
        ensures
            side <= 1,
            side == drawn_coin(old(self).state).0,
            final(self).state == drawn_coin(old(self).state).1,
    {
        let (number, state) = draw_coin(self.state);
        self.state = state;
        number
    }
}

} // verus!
