//! The pseudo-random stream that decoders draw noise from.
//!
//! Band width extension and latent noise filling both consume it, so the sequence and the number of
//! draws per frame both decide what is heard. The generator is the linear congruential one of the
//! Microsoft C runtime, whose seed starts at one.

use vstd::prelude::*;

verus! {

/// The largest number that a draw can give, by which both consumers divide.
pub const AVS3_RAND_MAX: u32 = 0x7FFF;

/// The seed of a fresh stream.
pub open spec fn initial_seed() -> int {
    1
}

/// The seed that follows `seed`.
pub open spec fn next_seed(seed: int) -> int {
    (214_013 * seed + 2_531_011) % 0x1_0000_0000
}

/// The number that is drawn when the seed has become `seed`: its bits 16 to 30.
pub open spec fn drawn(seed: int) -> int {
    seed / 0x1_0000 % 0x8000
}

/// A noise stream of its own for each decoder.
///
/// The stream is seeded once and moves on with every draw, so what is decoded depends on what was
/// decoded before.
#[derive(Debug, Clone, PartialEq, Eq)]
pub struct Avs3Random {
    seed: u32,
}

impl Avs3Random {
    /// The state of the stream.
    pub closed spec fn state(&self) -> int {
        self.seed as int
    }

    /// Start a stream.
    pub fn new() -> (random: Self)
        ensures
            random.state() == initial_seed(),
    {
        Avs3Random { seed: 1 }
    }

    /// Go back to the start of the stream.
    pub fn reset(&mut self)
        ensures
            final(self).state() == initial_seed(),
    {
        self.seed = 1;
    }

    /// The state of the stream, to tell two streams apart.
    pub fn seed(&self) -> (seed: u32)
        ensures
            seed == self.state(),
    {
        self.seed
    }

    /// Draw the next number.
    pub fn rand(&mut self) -> (value: u32)
        ensures
            final(self).state() == next_seed(old(self).state()),
            value == drawn(final(self).state()),
            value <= AVS3_RAND_MAX,
    {
        let seed: u32 = self.seed.wrapping_mul(214_013).wrapping_add(2_531_011);
        proof {
            let product = self.seed * 214_013;
            vstd::arithmetic::div_mod::lemma_fundamental_div_mod(product, 0x1_0000_0000);
        }
        self.seed = seed;
        seed / 0x1_0000 % 0x8000
    }
}

impl Default for Avs3Random {
    fn default() -> (random: Self)
        ensures
            random.state() == initial_seed(),
    {
        Avs3Random::new()
    }
}

} // verus!
