//! The random source that wires the columns.
//!
//! It is a SplitMix64 generator: its whole state is one 64-bit word, so a
//! seed fixes every number that it will ever give.

use vstd::prelude::*;

verus! {

/// The increment of the state between two draws.
pub const GAMMA: u64 = 0x9E37_79B9_7F4A_7C15;

/// The first multiplier of the output mix.
pub const MIX_A: u64 = 0xBF58_476D_1CE4_E5B9;

/// The second multiplier of the output mix.
pub const MIX_B: u64 = 0x94D0_49BB_1331_11EB;

/// The state that follows `state`.
pub open spec fn advance(state: u64) -> u64 {
    state.wrapping_add(GAMMA)
}

/// The number that a source in `state` has just given.
pub open spec fn output(state: u64) -> u64 {
    let a = (state ^ (state >> 30)).wrapping_mul(MIX_A);
    let b = (a ^ (a >> 27)).wrapping_mul(MIX_B);
    b ^ (b >> 31)
}

/// The state after `count` draws from `state`.
pub open spec fn advance_by(state: u64, count: nat) -> u64
    decreases count,
{
    if count == 0 {
        state
    } else {
        advance(advance_by(state, (count - 1) as nat))
    }
}

/// Drawing `a` times and then `b` times is drawing `a + b` times.
pub proof fn lemma_advance_by_sum(state: u64, a: nat, b: nat)
    ensures
        advance_by(advance_by(state, a), b) == advance_by(state, a + b),
    decreases b,
{
    if b > 0 {
        lemma_advance_by_sum(state, a, (b - 1) as nat);
    }
}

/// The number below `bound` that a source gives when it is drawn from in
/// `state`.
pub open spec fn draw_below(state: u64, bound: nat) -> nat
    recommends
        bound > 0,
{
    (output(advance(state)) as nat) % bound
}

/// A seedable source of random numbers.
pub struct RandomSource {
    state: u64,
}

impl View for RandomSource {
    type V = u64;

    /// The state of the source.
    closed spec fn view(&self) -> u64 {
        self.state
    }
}

impl RandomSource {
    /// A source whose state is `seed`.
    pub fn new(seed: u64) -> (source: RandomSource)
        ensures
            source@ == seed,
    {
        RandomSource { state: seed }
    }

    /// The state of the source: a source made from it goes on as this one.
    pub fn state(&self) -> (state: u64)
        ensures
            state == self@,
    {
        self.state
    }

    /// Draws the next number.
    pub fn next_u64(&mut self) -> (r: u64)
        ensures
            final(self)@ == advance(old(self)@),
            r == output(final(self)@),
    {
        self.state = self.state.wrapping_add(GAMMA);
        let a: u64 = (self.state ^ (self.state >> 30)).wrapping_mul(MIX_A);
        let b: u64 = (a ^ (a >> 27)).wrapping_mul(MIX_B);
        b ^ (b >> 31)
    }

    /// Draws a number below `bound`, as the remainder of the next number.
    pub fn below(&mut self, bound: usize) -> (r: usize)
        requires
            bound > 0,
        ensures
            final(self)@ == advance(old(self)@),
            r == draw_below(old(self)@, bound as nat),
            r < bound,
    {
        let word: u64 = self.next_u64();
        let r: u64 = word % (bound as u64);
        r as usize
    }
}

} // verus!
