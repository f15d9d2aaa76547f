//! A linear-congruential generator: `seed' = (multiplier * seed + increment)
//! mod modulus`. Not cryptographic; fully reproducible from its four numbers.
use vstd::prelude::*;

verus! {

#[derive(Clone, Copy, PartialEq, Eq, Debug)]
pub struct RandomGenerator {
    pub modulus: u64,
    pub multiplier: u64,
    pub increment: u64,
    pub seed: u64,
}

/// One step of the generator from `seed`.
pub open spec fn lcg_step(modulus: u64, multiplier: u64, increment: u64, seed: u64) -> u64 {
    ((multiplier as int * seed as int + increment as int) % modulus as int) as u64
}

impl RandomGenerator {
    /// What the next call of `generate` returns.
    pub open spec fn next_value(self) -> u64 {
        lcg_step(self.modulus, self.multiplier, self.increment, self.seed)
    }

    /// The generator after one call of `generate`.
    pub open spec fn advanced(self) -> RandomGenerator {
        RandomGenerator { seed: self.next_value(), ..self }
    }

    /// The generator after `n` calls of `generate`.
    pub open spec fn advanced_by(self, n: nat) -> RandomGenerator
        decreases n,
    {
        if n == 0 {
            self
        } else {
            self.advanced().advanced_by((n - 1) as nat)
        }
    }

    /// One more step after `n` steps is `n + 1` steps.
    pub proof fn lemma_advanced_by_succ(self, n: nat)
        ensures
            self.advanced_by(n + 1) == self.advanced_by(n).advanced(),
        decreases n,
    {
        assert(self.advanced_by(n + 1) == self.advanced().advanced_by(n));
        if n > 0 {
            self.advanced().lemma_advanced_by_succ((n - 1) as nat);
        } else {
            assert(self.advanced().advanced_by(0) == self.advanced());
        }
    }

    pub fn new(modulus: u64, multiplier: u64, increment: u64, seed: u64) -> (r: RandomGenerator)
        ensures
            r == (RandomGenerator { modulus, multiplier, increment, seed }),
    {
        RandomGenerator { modulus, multiplier, increment, seed }
    }

    /// Steps the generator and returns its new seed, a value below the modulus.
    pub fn generate(&mut self) -> (r: u64)
        requires
            old(self).modulus > 0,
        ensures
            r == old(self).next_value(),
            *final(self) == old(self).advanced(),
            r < old(self).modulus,
    {
        let m: u128 = self.multiplier as u128;
        let sd: u128 = self.seed as u128;
        assert(m * sd <= 0xffff_ffff_ffff_ffffu128 * 0xffff_ffff_ffff_ffffu128) by (nonlinear_arith)
            requires
                m <= 0xffff_ffff_ffff_ffffu128,
                sd <= 0xffff_ffff_ffff_ffffu128,
        ;
        let product: u128 = m * sd;
        let result = ((product + self.increment as u128) % self.modulus as u128) as u64;
        self.seed = result;
        result
    }
}

/// Two generators made with the same modulus, multiplier, increment and
/// seed give the same sequence: after any number of steps they agree.
pub proof fn lemma_same_parameters_same_sequence(a: RandomGenerator, b: RandomGenerator, n: nat)
    requires
        a.modulus == b.modulus,
        a.multiplier == b.multiplier,
        a.increment == b.increment,
        a.seed == b.seed,
    ensures
        a.advanced_by(n) == b.advanced_by(n),
        a.advanced_by(n).next_value() == b.advanced_by(n).next_value(),
{
    assert(a == b);
}

} // verus!
