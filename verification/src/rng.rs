//! The source of channel randomness: a seedable pseudorandom generator
//! backed by rand's `StdRng`, behind trusted wrappers. Experiments draw
//! message bits, error positions and error multiplicities from it; seeding
//! makes runs reproducible.

use vstd::prelude::*;
use rand::Rng;
use rand::SeedableRng;

verus! {

#[verifier::external_type_specification]
#[verifier::external_body]
pub struct ExStdRng(rand::rngs::StdRng);

/// Relies on rand's `StdRng::seed_from_u64`: builds a pseudorandom
/// generator deterministically from a 64-bit seed; the call always
/// succeeds. Nothing is claimed about the generator's state.
#[verifier::external_body]
fn std_rng_from_seed(seed: u64) -> rand::rngs::StdRng {
    rand::rngs::StdRng::seed_from_u64(seed)
}

/// Relies on rand's `Rng::random_range` over `0..bound`: returns a
/// uniformly distributed value below `bound`. The range is non-empty
/// (`bound >= 1`), so the call cannot panic; nothing more is claimed of
/// which value comes back.
#[verifier::external_body]
fn std_rng_below(rng: &mut rand::rngs::StdRng, bound: u64) -> (r: u64)
    requires
        bound >= 1,
    ensures
        r < bound,
{
    rng.random_range(0..bound)
}

/// A seedable randomness source threaded through message generation and
/// error injection, so that experiment batches are reproducible.
pub struct ChannelRng {
    inner: rand::rngs::StdRng,
}

impl ChannelRng {
    /// Creates a source whose draws are determined by `seed`.
    pub fn from_seed(seed: u64) -> ChannelRng {
        ChannelRng { inner: std_rng_from_seed(seed) }
    }

    /// Draws a uniformly distributed value below `bound`.
    pub fn next_below(&mut self, bound: u64) -> (r: u64)
        requires
            bound >= 1,
        ensures
            r < bound,
    {
        std_rng_below(&mut self.inner, bound)
    }

    /// Draws one uniformly random bit.
    pub fn next_bit(&mut self) -> bool {
        self.next_below(2) == 1
    }

    /// Draws a uniformly distributed index below `n`.
    pub fn next_index(&mut self, n: usize) -> (r: usize)
        requires
            n >= 1,
        ensures
            r < n,
    {
        let r = self.next_below(n as u64);
        proof {
            assert(r <= usize::MAX as u64);
        }
        r as usize
    }
}

/// An error probability as an exact rational `num / den`, so that the
/// degenerate ends of the range are exact: probability zero never fires
/// and probability one always fires.
#[derive(Clone, Copy, PartialEq, Eq, Structural, Debug)]
pub struct ErrorProb {
    /// Numerator.
    pub num: u64,
    /// Denominator.
    pub den: u64,
}

impl ErrorProb {
    /// The rational is a probability: `num / den` with `den >= 1` and
    /// `num <= den`.
    pub open spec fn wf(&self) -> bool {
        1 <= self.den && self.num <= self.den
    }

    /// Probability zero.
    pub open spec fn is_never(&self) -> bool {
        self.num == 0
    }

    /// Probability one.
    pub open spec fn is_always(&self) -> bool {
        self.num == self.den
    }

    /// Builds the probability `num / den`; a numerator above the
    /// denominator, or a zero denominator, is rejected.
    pub fn new(num: u64, den: u64) -> (r: Option<ErrorProb>)
        ensures
            r is Some <==> (1 <= den && num <= den),
            match r {
                Some(pr) => pr.num == num && pr.den == den && pr.wf(),
                None => true,
            },
    {
        if den >= 1 && num <= den {
            Some(ErrorProb { num, den })
        } else {
            None
        }
    }

    /// Draws once: true with probability `num / den`. Never true for
    /// probability zero, always true for probability one.
    pub fn decide(&self, rng: &mut ChannelRng) -> (r: bool)
        requires
            self.wf(),
        ensures
            self.is_never() ==> !r,
            self.is_always() ==> r,
    {
        let d = rng.next_below(self.den);
        d < self.num
    }
}

} // verus!
