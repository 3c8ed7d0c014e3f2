//! A seedable pseudo-random source.
//!
//! The generator is SplitMix64: a 64-bit counter that advances by a fixed odd
//! increment, and an output function that scrambles the counter.  Its whole
//! behaviour is given by the spec functions below, so that every consumer of
//! random numbers can state its result as a function of the generator state
//! it started from.

use vstd::prelude::*;

verus! {

/// Increment of the generator state between two draws.
pub const GOLDEN_GAMMA: u64 = 0x9E37_79B9_7F4A_7C15;

/// First multiplier of the output scrambler.
pub const MIX_A: u64 = 0xBF58_476D_1CE4_E5B9;

/// Second multiplier of the output scrambler.
pub const MIX_B: u64 = 0x94D0_49BB_1331_11EB;

/// A probability is an integer number of millionths: `PROBABILITY_SCALE`
/// stands for 1.0.
pub const PROBABILITY_SCALE: u64 = 1_000_000;

/// The state that follows `s`.
pub open spec fn next_state(s: u64) -> u64 {
    s.wrapping_add(GOLDEN_GAMMA)
}

/// The state reached from `s` after `k` draws.
pub open spec fn advance(s: u64, k: nat) -> u64
    decreases k,
{
    if k == 0 {
        s
    } else {
        next_state(advance(s, (k - 1) as nat))
    }
}

/// The output scrambler.
pub open spec fn scramble(z: u64) -> u64 {
    let a = (z ^ (z >> 30)).wrapping_mul(MIX_A);
    let b = (a ^ (a >> 27)).wrapping_mul(MIX_B);
    b ^ (b >> 31)
}

/// The 64-bit value drawn when the generator is in state `s`.
pub open spec fn draw(s: u64) -> u64 {
    scramble(next_state(s))
}

/// The value below `bound` drawn when the generator is in state `s`.
pub open spec fn draw_below(s: u64, bound: u64) -> u64 {
    draw(s) % bound
}

/// The probability, in millionths, drawn when the generator is in state `s`.
pub open spec fn draw_probability(s: u64) -> u64 {
    draw_below(s, PROBABILITY_SCALE)
}

/// Advancing by `a` draws and then by `b` draws is advancing by `a + b`.
pub proof fn lemma_advance_add(s: u64, a: nat, b: nat)
    ensures
        advance(advance(s, a), b) == advance(s, a + b),
    decreases b,
{
    if b > 0 {
        lemma_advance_add(s, a, (b - 1) as nat);
    }
}

/// One more draw after `k` draws.
pub proof fn lemma_advance_step(s: u64, k: nat)
    ensures
        next_state(advance(s, k)) == advance(s, k + 1),
{
}

/// A pseudo-random generator. Its view is its current state; a generator
/// built from a seed starts in the state equal to that seed.
pub struct RandomSource {
    state: u64,
}

impl View for RandomSource {
    type V = u64;

    closed spec fn view(&self) -> u64 {
        self.state
    }
}

impl RandomSource {
    /// A generator in the state `seed`.
    pub fn new(seed: u64) -> (rng: Self)
        ensures
            rng@ == seed,
    {
        RandomSource { state: seed }
    }

    /// The current state, from which the generator can be rebuilt with `new`.
    pub fn state(&self) -> (s: u64)
        ensures
            s == self@,
    {
        self.state
    }

    /// Draws 64 bits.
    pub fn next_u64(&mut self) -> (value: u64)
        ensures
            value == draw(old(self)@),
            final(self)@ == next_state(old(self)@),
    {
        self.state = self.state.wrapping_add(GOLDEN_GAMMA);
        let z = self.state;
        let a = (z ^ (z >> 30)).wrapping_mul(MIX_A);
        let b = (a ^ (a >> 27)).wrapping_mul(MIX_B);
        b ^ (b >> 31)
    }

    /// Draws an integer in `[0, bound)`.
    pub fn uniform_below(&mut self, bound: u64) -> (value: u64)
        requires
            bound > 0,
        ensures
            value == draw_below(old(self)@, bound),
            value < bound,
            final(self)@ == next_state(old(self)@),
    {
        let raw = self.next_u64();
        raw % bound
    }

    /// Draws an index into a collection of `len` elements.
    pub fn uniform_index(&mut self, len: usize) -> (index: usize)
        requires
            len > 0,
        ensures
            index == draw_below(old(self)@, len as u64),
            index < len,
            final(self)@ == next_state(old(self)@),
    {
        let value = self.uniform_below(len as u64);
        value as usize
    }

    /// Draws a probability in `[0, 1)`, in millionths.
    pub fn probability(&mut self) -> (p: u64)
        ensures
            p == draw_probability(old(self)@),
            p < PROBABILITY_SCALE,
            final(self)@ == next_state(old(self)@),
    {
        self.uniform_below(PROBABILITY_SCALE)
    }
}

/// The integer in `[min, max)` drawn when the generator is in state `s`.
pub open spec fn draw_in_range(s: u64, min: i32, max: i32) -> int {
    min + draw_below(s, (max - min) as u64)
}

/// Draws an integer in `[min, max)`.
pub fn random_range(rng: &mut RandomSource, min: i32, max: i32) -> (value: i32)
    requires
        min < max,
    ensures
        value == draw_in_range(old(rng)@, min, max),
        min <= value < max,
        final(rng)@ == next_state(old(rng)@),
{
    let span: u64 = (max as i64 - min as i64) as u64;
    let offset: u64 = rng.uniform_below(span);
    (min as i64 + offset as i64) as i32
}

} // verus!
