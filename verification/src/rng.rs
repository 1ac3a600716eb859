//! Seeded, reproducible selection randomness. The engine keeps a plain
//! 64-bit state and advances it one word at a time; each word comes from the
//! standard generator of the `rand` crate, freshly seeded with the current
//! state, so the whole stream is a mathematical function of the initial seed
//! and a run of the engine is reproducible.

use vstd::prelude::*;

use rand::{Rng, SeedableRng};

verus! {

/// The word that the standard generator of the `rand` crate, seeded with `s`,
/// puts out first. Uninterpreted: the contracts only use that it is a
/// function of `s` alone.
pub uninterp spec fn std_rng_word(s: u64) -> u64;

/// Relies on `rand_core::SeedableRng::seed_from_u64` and
/// `rand_core::Rng::next_u64` for `rand::rngs::StdRng`: seeding is a pure
/// function of the given word, and the generator's first output word is a
/// pure function of its seed, so the result depends on `seed` alone.
#[verifier::external_body]
fn std_rng_draw(seed: u64) -> (r: u64)
    ensures
        r == std_rng_word(seed),
{
    rand::rngs::StdRng::seed_from_u64(seed).next_u64()
}

/// The state after `i` draws from initial state `s`.
pub open spec fn state_at(s: u64, i: nat) -> u64
    decreases i,
{
    if i == 0 {
        s
    } else {
        std_rng_word(state_at(s, (i - 1) as nat))
    }
}

/// The index in `[0, n)` that the draw leaving state `s` picks.
pub open spec fn index_at(s: u64, n: int) -> int {
    std_rng_word(s) as int % n
}

/// A seeded pseudo-random source of indices. Advancing it is deterministic:
/// the state after a draw, and the index drawn, are functions of the state
/// before it.
pub struct SeededRng {
    pub state: u64,
}

impl SeededRng {
    pub fn from_seed(seed: u64) -> (r: SeededRng)
        ensures
            r.state == seed,
    {
        SeededRng { state: seed }
    }

    /// Draws a pseudo-random index in `[0, n)` and advances the state.
    pub fn next_index(&mut self, n: usize) -> (r: usize)
        requires
            n > 0,
        ensures
            final(self).state == std_rng_word(old(self).state),
            r == index_at(old(self).state, n as int),
            r < n,
    {
        let w = std_rng_draw(self.state);
        self.state = w;
        let m: u64 = w % (n as u64);
        assert(m < n as u64);
        m as usize
    }
}

/// Iterated draws compose: drawing once from the state after `i` draws lands
/// on the state after `i + 1` draws.
pub proof fn lemma_state_at_step(s: u64, i: nat)
    ensures
        std_rng_word(state_at(s, i)) == state_at(s, i + 1),
{
}

} // verus!
