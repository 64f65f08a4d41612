//! Classic L-system scenes: space-filling and fractal curves, and a simple plant.
pub mod controller;
pub mod dragoncurve;
pub mod peano;
pub mod plant;
pub mod sierpinski;

use vstd::prelude::*;
use vstd::std_specs::cmp::PartialEqSpec;

use crate::dice::SeededDice;
use crate::lsystem::{
    all_normal, copied, lemma_normal_evolve, lemma_normal_sorted,
    substitute_n, successor, LSystem, Rule, Symbol,
};

verus! {

/// Runs `iterations` passes of a set of `Normal` rules from `initial`; the string that
/// results
pub(crate) fn evolve_normal<'a, S: Symbol>(initial: &[S], rules: Vec<Rule<'a, S>>, iterations: u32) -> (r: Vec<S>)
    requires
        S::obeys_eq_spec(),
        all_normal(rules@),
    ensures
        r@ == substitute_n(initial@, |x: S| successor(rules@, x), iterations as nat),
{
    let ghost rs = rules@;
    let mut lsystem = LSystem::new(initial, rules);
    proof {
        lemma_normal_sorted(rs);
    }
    lsystem.evolve(iterations as usize, &mut SeededDice::new(0));
    proof {
        lemma_normal_evolve(rs, initial@, iterations as nat, lsystem@);
    }
    copied(lsystem.current())
}

} // verus!
