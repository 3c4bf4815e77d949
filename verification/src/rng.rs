//! Deterministic pseudo-random stream for the aggregation engine.
//!
//! The engine threads a single explicit stream object through every spawn
//! and walk decision, so the whole simulation is a pure function of the
//! configuration and the 64-bit seed.

use vstd::prelude::*;
use rand::RngCore;
use rand::SeedableRng;

verus! {

#[verifier::external_type_specification]
#[verifier::external_body]
pub struct ExChaCha8Rng(rand_chacha::ChaCha8Rng);

/// Word `index` of the deterministic stream that `ChaCha8Rng` produces for
/// a given 64-bit seed. `rand_core` documents that a seeded generator yields
/// the same sequence on all runs, library versions and architectures, so the
/// value is a function of the seed and the position alone.
pub uninterp spec fn chacha_word(seed: u64, index: nat) -> u64;

/// A seeded pseudo-random word stream.
///
/// `seed()` and `drawn()` model the stream position: the next call to
/// [`RandomStream::next_word`] returns `chacha_word(seed(), drawn())`.
pub struct RandomStream {
    inner: rand_chacha::ChaCha8Rng,
    seed: Ghost<u64>,
    drawn: Ghost<nat>,
}

impl RandomStream {
    /// The seed this stream was created from.
    pub closed spec fn seed(self) -> u64 {
        self.seed@
    }

    /// How many words have been drawn so far.
    pub closed spec fn drawn(self) -> nat {
        self.drawn@
    }

    /// Creates the stream for a 64-bit seed, at position zero.
    pub fn from_seed(seed: u64) -> (r: RandomStream)
        ensures
            r.seed() == seed,
            r.drawn() == 0,
    {
        RandomStream { inner: chacha_from_seed(seed), seed: Ghost(seed), drawn: Ghost(0nat) }
    }

    /// Relies on `RngCore::next_u64` for `ChaCha8Rng`: the output is the next
    /// word of the deterministic stream fixed by the seed, here named
    /// `chacha_word(seed, position)`.
    #[verifier::external_body]
    pub fn next_word(&mut self) -> (r: u64)
        ensures
            r == chacha_word(old(self).seed(), old(self).drawn()),
            final(self).seed() == old(self).seed(),
            final(self).drawn() == old(self).drawn() + 1,
    {
        self.inner.next_u64()
    }
}

/// Relies on `rand_chacha::ChaCha8Rng::seed_from_u64` (from `SeedableRng`):
/// the constructed generator state is a pure function of the 64-bit seed, so
/// the words later drawn from it are the fixed stream named by `chacha_word`.
#[verifier::external_body]
fn chacha_from_seed(seed: u64) -> rand_chacha::ChaCha8Rng {
    rand_chacha::ChaCha8Rng::seed_from_u64(seed)
}

/// Relies on `rand::rngs::OsRng`: draws one word from the operating system's
/// entropy source. Nothing is assumed of the value, so a stream seeded with
/// it is not reproducible.
#[verifier::external_body]
pub fn entropy_seed() -> u64 {
    rand::rngs::OsRng.next_u64()
}

/// The value of the next word drawn from a stream at position `index`,
/// reduced to `[0, bound)`.
pub open spec fn spec_word_below(seed: u64, index: nat, bound: int) -> int
    recommends
        bound > 0,
{
    chacha_word(seed, index) as int % bound
}

impl RandomStream {
    /// Draws one word and reduces it below `bound`.
    pub fn next_below(&mut self, bound: u64) -> (r: u64)
        requires
            bound > 0,
        ensures
            r == spec_word_below(old(self).seed(), old(self).drawn(), bound as int),
            0 <= r < bound,
            final(self).seed() == old(self).seed(),
            final(self).drawn() == old(self).drawn() + 1,
    {
        let w = self.next_word();
        w % bound
    }
}

} // verus!
