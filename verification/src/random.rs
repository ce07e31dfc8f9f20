//! A seeded linear congruential generator.
//!
//! The generator is the only source of randomness of a render. It is a
//! plain value that every consumer receives by mutable reference, so the
//! order of the draws, and with it the image, is fixed by the seed.

use vstd::prelude::*;

verus! {

/// Multiplier of the recurrence (the parameters are those of Knuth and
/// H. W. Lewis).
pub const MULTIPLIER: u64 = 1664525;

/// Increment of the recurrence.
pub const INCREMENT: u64 = 1013904223;

/// Modulus of the recurrence, two to the power 32. A draw `d` stands for
/// the fraction `d / MODULUS`.
pub const MODULUS: u64 = 0x1_0000_0000;

/// One step of the recurrence on an arbitrary state.
pub open spec fn lcg_next(state: nat) -> nat {
    ((MULTIPLIER * state + INCREMENT) % (MODULUS as int)) as nat
}

/// The state reached from `seed` after `n` steps.
pub open spec fn lcg_iterate(seed: nat, n: nat) -> nat
    decreases n,
{
    if n == 0 {
        seed
    } else {
        lcg_next(lcg_iterate(seed, (n - 1) as nat))
    }
}

/// The first `n` draws of a generator seeded with `seed`.
pub open spec fn lcg_stream(seed: nat, n: nat) -> Seq<nat> {
    Seq::new(n, |i: int| lcg_iterate(seed, (i + 1) as nat))
}

/// Pseudo-random number generator; its view is the current state.
pub struct Rng {
    x: u64,
}

impl View for Rng {
    type V = nat;

    closed spec fn view(&self) -> nat {
        self.x as nat
    }
}

impl Rng {
    /// A generator whose state is `seed`.
    pub fn new(seed: u64) -> (rng: Rng)
        ensures
            rng@ == seed,
    {
        Rng { x: seed }
    }

    /// Advances the state by one step and returns it. The draw is the
    /// numerator of a fraction over [`MODULUS`], a value in `[0, 1)`.
    pub fn generate(&mut self) -> (draw: u32)
        ensures
            final(self)@ == lcg_next(old(self)@),
            draw == final(self)@,
    {
        // Reducing the state first keeps the product within 64 bits and
        // does not change the residue.
        let reduced: u64 = self.x % MODULUS;
        assert((MULTIPLIER * reduced + INCREMENT) % (MODULUS as int) == (MULTIPLIER * self.x
            + INCREMENT) % (MODULUS as int));
        self.x = (MULTIPLIER * reduced + INCREMENT) % MODULUS;
        self.x as u32
    }
}

/// Every draw is below the modulus, so the fraction it stands for lies in
/// `[0, 1)`.
pub proof fn lemma_draw_in_range(seed: nat, n: nat)
    requires
        n > 0,
    ensures
        lcg_iterate(seed, n) < MODULUS,
{
}

/// Steps add up: taking `n` steps after `m` is taking `m + n`.
pub proof fn lemma_iterate_adds(seed: nat, m: nat, n: nat)
    ensures
        lcg_iterate(lcg_iterate(seed, m), n) == lcg_iterate(seed, m + n),
    decreases n,
{
    if n > 0 {
        lemma_iterate_adds(seed, m, (n - 1) as nat);
        assert(lcg_iterate(seed, m + n) == lcg_next(lcg_iterate(seed, (m + n - 1) as nat)));
    }
}

/// Two generators in the same state produce the same draws for ever.
pub proof fn lemma_same_state_same_stream(a: Rng, b: Rng, n: nat)
    requires
        a@ == b@,
    ensures
        lcg_stream(a@, n) == lcg_stream(b@, n),
        lcg_iterate(a@, n) == lcg_iterate(b@, n),
{
}

} // verus!
