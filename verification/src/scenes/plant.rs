//! A bracketed fractal plant.
use vstd::prelude::*;
use vstd::std_specs::cmp::PartialEqSpecImpl;

use super::evolve_normal;
use crate::lsystem::{
    count, first_match, lemma_count_concat, power, substitute, substitute_n, successor, ContextAction, Rule, Symbol,
    SymbolType,
};

verus! {

#[derive(Debug, Eq, Copy, Clone)]
pub enum Plant {
    X,
    F,
    Right,
    Left,
    Push,
    Pop,
}

impl Plant {
    pub open spec fn spec_index(self) -> u8 {
        match self {
            Plant::X => 0,
            Plant::F => 1,
            Plant::Right => 2,
            Plant::Left => 3,
            Plant::Push => 4,
            Plant::Pop => 5,
        }
    }

    fn index(&self) -> (i: u8)
        ensures
            i == self.spec_index(),
    {
        match self {
            Plant::X => 0,
            Plant::F => 1,
            Plant::Right => 2,
            Plant::Left => 3,
            Plant::Push => 4,
            Plant::Pop => 5,
        }
    }
}

impl PartialEq for Plant {
    fn eq(&self, other: &Self) -> (r: bool) {
        self.index() == other.index()
    }
}

impl PartialEqSpecImpl for Plant {
    open spec fn obeys_eq_spec() -> bool {
        true
    }

    open spec fn eq_spec(&self, other: &Plant) -> bool {
        self.spec_index() == other.spec_index()
    }
}

impl Symbol for Plant {
    open spec fn spec_symbol_type(&self) -> SymbolType {
        match self {
            Plant::X | Plant::F => SymbolType::NonTerminal,
            _ => SymbolType::Terminal,
        }
    }

    open spec fn spec_context(&self) -> ContextAction {
        ContextAction::Consider
    }

    fn symbol_type(&self) -> (t: SymbolType) {
        match self {
            Plant::X | Plant::F => SymbolType::NonTerminal,
            _ => SymbolType::Terminal,
        }
    }

    fn context(&self) -> (c: ContextAction) {
        ContextAction::Consider
    }
}

/// One rewriting of a symbol
pub open spec fn plant_successor(c: Plant) -> Seq<Plant> {
    match c {
        Plant::X => seq![Plant::F, Plant::Left, Plant::Push, Plant::Push, Plant::X, Plant::Pop, Plant::Right, Plant::X, Plant::Pop, Plant::Right, Plant::F, Plant::Push, Plant::Right, Plant::F, Plant::X, Plant::Pop, Plant::Left, Plant::X],
        Plant::F => seq![Plant::F, Plant::F],
        _ => seq![c],
    }
}

/// The fractal plant after `n` iterations
pub open spec fn fractal_plant(n: nat) -> Seq<Plant> {
    substitute_n(seq![Plant::Right, Plant::X], |c: Plant| plant_successor(c), n)
}

proof fn lemma_plant_symbol(x: Plant)
    ensures
        count(plant_successor(x), |c: Plant| c is X) == if x is X { 4nat } else { 0nat },
        count(plant_successor(x), |c: Plant| c is Push) == if x is X { 3nat } else if x is Push { 1nat } else { 0nat },
        count(plant_successor(x), |c: Plant| c is Pop) == if x is X { 3nat } else if x is Pop { 1nat } else { 0nat },
{
    reveal_with_fuel(count, 19);
}

/// One pass turns each `X` into four, and adds three `Push` and three `Pop` per `X`
proof fn lemma_plant_pass(s: Seq<Plant>)
    ensures
        count(substitute(s, |c: Plant| plant_successor(c)), |c: Plant| c is X) == 4 * count(s, |c: Plant| c is X),
        count(substitute(s, |c: Plant| plant_successor(c)), |c: Plant| c is Push) == count(s, |c: Plant| c is Push) + 3
            * count(s, |c: Plant| c is X),
        count(substitute(s, |c: Plant| plant_successor(c)), |c: Plant| c is Pop) == count(s, |c: Plant| c is Pop) + 3
            * count(s, |c: Plant| c is X),
    decreases s.len(),
{
    let f = |c: Plant| plant_successor(c);
    let px = |c: Plant| c is X;
    let pu = |c: Plant| c is Push;
    let po = |c: Plant| c is Pop;
    if s.len() > 0 {
        let init = s.drop_last();
        let x = s.last();
        lemma_plant_pass(init);
        assert(substitute(s, f) == substitute(init, f) + plant_successor(x));
        lemma_count_concat(substitute(init, f), plant_successor(x), px);
        lemma_count_concat(substitute(init, f), plant_successor(x), pu);
        lemma_count_concat(substitute(init, f), plant_successor(x), po);
        lemma_plant_symbol(x);
        assert(count(s, px) == count(init, px) + if x is X { 1nat } else { 0nat });
        assert(count(s, pu) == count(init, pu) + if x is Push { 1nat } else { 0nat });
        assert(count(s, po) == count(init, po) + if x is Pop { 1nat } else { 0nat });
    }
}

/// The fractal plant after `n` iterations holds `4^n` `X`s, and as many `Push` as
/// `Pop` symbols: its branches are balanced.
pub proof fn lemma_fractal_plant_counts(n: nat)
    ensures
        count(fractal_plant(n), |c: Plant| c is X) == power(4, n),
        count(fractal_plant(n), |c: Plant| c is Push) == count(fractal_plant(n), |c: Plant| c is Pop),
    decreases n,
{
    if n == 0 {
        reveal_with_fuel(count, 3);
    } else {
        lemma_fractal_plant_counts((n - 1) as nat);
        lemma_plant_pass(fractal_plant((n - 1) as nat));
    }
}

pub fn actions(scene_iter: u32) -> (r: Vec<Plant>)
    ensures
        r@ == fractal_plant(scene_iter as nat),
        count(r@, |c: Plant| c is Push) == count(r@, |c: Plant| c is Pop),
{
    let rules = vec![
        Rule::Normal(Plant::X, &[Plant::F, Plant::Left, Plant::Push, Plant::Push, Plant::X, Plant::Pop, Plant::Right, Plant::X, Plant::Pop, Plant::Right, Plant::F, Plant::Push, Plant::Right, Plant::F, Plant::X, Plant::Pop, Plant::Left, Plant::X]),
        Rule::Normal(Plant::F, &[Plant::F, Plant::F]),
    ];
    let ghost rs = rules@;
    let r = evolve_normal(&[Plant::Right, Plant::X], rules, scene_iter);
    proof {
        assert forall|c: Plant| #[trigger] successor(rs, c) == plant_successor(c) by {
            reveal_with_fuel(first_match, 3);
        }
        assert((|x: Plant| successor(rs, x)) =~= (|c: Plant| plant_successor(c)));
        assert(seq![Plant::Right, Plant::X] =~= [Plant::Right, Plant::X]@);
        lemma_fractal_plant_counts(scene_iter as nat);
    }
    r
}

} // verus!
