//! Seeded random draws for stochastic rules.
use rand::rngs::SmallRng;
use rand::{Rng, SeedableRng};
use vstd::prelude::*;

use crate::lsystem::{Dice, Probability};

verus! {

#[verifier::external_type_specification]
#[verifier::external_body]
pub struct ExSmallRng(SmallRng);

/// Calls `SeedableRng::seed_from_u64` for rand's `SmallRng`. Nothing is claimed of
/// the generator's state, which Verus does not see into.
#[verifier::external_body]
fn small_rng_seeded(seed: u64) -> SmallRng {
    SmallRng::seed_from_u64(seed)
}

/// Calls `Rng::random_ratio`, which returns `true` with probability
/// `numerator / denominator`. Claimed, as rand documents and its `Bernoulli::from_ratio`
/// shows: the result is `false` when `numerator == 0` and `true` when
/// `numerator == denominator`. The call panics unless `0 < denominator` and
/// `numerator <= denominator`, which the `requires` rules out.
#[verifier::external_body]
fn small_rng_ratio(rng: &mut SmallRng, numerator: u32, denominator: u32) -> (hit: bool)
    requires
        0 < denominator,
        numerator <= denominator,
    ensures
        numerator == 0 ==> !hit,
        numerator == denominator ==> hit,
{
    rng.random_ratio(numerator, denominator)
}

/// Dice driven by a seeded pseudo-random generator: the same seed gives the same
/// sequence of draws
pub struct SeededDice {
    rng: SmallRng,
    asked: Ghost<Seq<Probability>>,
}

impl SeededDice {
    /// Dice whose generator is rand's `SmallRng` seeded with `seed`. Nothing is stated
    /// of the generator's state: Verus does not see into it, and rand documents the
    /// sequence as not reproducible across platforms or versions, so it gets no name.
    pub fn new(seed: u64) -> (d: SeededDice)
        ensures
            d.chances() == Seq::<Probability>::empty(),
    {
        SeededDice { rng: small_rng_seeded(seed), asked: Ghost(Seq::empty()) }
    }
}

impl Dice for SeededDice {
    closed spec fn chances(&self) -> Seq<Probability> {
        self.asked@
    }

    fn roll(&mut self, chance: Probability) -> (hit: bool) {
        let d = chance.denominator();
        let n = chance.numerator();
        self.asked = Ghost(self.asked@.push(chance));
        small_rng_ratio(&mut self.rng, n, d)
    }
}

} // verus!
