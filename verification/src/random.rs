//! A small seeded pseudo-random source. The same seed gives the same picks,
//! so a session can be replayed.

use vstd::prelude::*;

verus! {

/// The state a source starts from when it is seeded with zero, on which the
/// generator would never move.
pub const DEFAULT_SEED: u64 = 0x9E37_79B9_7F4A_7C15;

/// One step of the generator: a 64-bit xorshift.
pub open spec fn scramble(s: u64) -> u64 {
    let a = s ^ (s << 13);
    let b = a ^ (a >> 7);
    b ^ (b << 17)
}

/// The state reached from `s` after `k` steps.
pub open spec fn advanced(s: u64, k: nat) -> u64
    decreases k,
{
    if k == 0 {
        s
    } else {
        scramble(advanced(s, (k - 1) as nat))
    }
}

/// Taking `a` steps and then `b` more is taking `a + b` steps.
pub proof fn lemma_advanced_sum(s: u64, a: nat, b: nat)
    ensures
        advanced(advanced(s, a), b) == advanced(s, a + b),
    decreases b,
{
    if b > 0 {
        lemma_advanced_sum(s, a, (b - 1) as nat);
    }
}

/// A deterministic source of picks.
#[derive(Debug)]
pub struct RandomSource {
    state: u64,
}

impl RandomSource {
    /// The current state of the generator.
    pub closed spec fn state(&self) -> u64 {
        self.state
    }

    /// A source seeded with `seed`; a zero seed is replaced by `DEFAULT_SEED`.
    pub fn new(seed: u64) -> (source: RandomSource)
        ensures
            source.state() == (if seed == 0 { DEFAULT_SEED } else { seed }),
    {
        if seed == 0 {
            RandomSource { state: DEFAULT_SEED }
        } else {
            RandomSource { state: seed }
        }
    }

    /// Steps the generator and returns its new state.
    pub fn next(&mut self) -> (out: u64)
        ensures
            final(self).state() == scramble(old(self).state()),
            out == final(self).state(),
    {
        let s: u64 = self.state;
        let a: u64 = s ^ (s << 13);
        let b: u64 = a ^ (a >> 7);
        let c: u64 = b ^ (b << 17);
        self.state = c;
        c
    }

    /// Steps the generator and returns a pick in `0..bound`: the new state
    /// reduced modulo `bound`.
    pub fn next_below(&mut self, bound: usize) -> (pick: usize)
        requires
            bound > 0,
        ensures
            final(self).state() == scramble(old(self).state()),
            pick == final(self).state() as int % bound as int,
            pick < bound,
    {
        let out: u64 = self.next();
        (out % (bound as u64)) as usize
    }
}

} // verus!
