//! The Peano space-filling curve.
use vstd::prelude::*;
use vstd::std_specs::cmp::PartialEqSpecImpl;

use super::evolve_normal;
use crate::lsystem::{
    count, first_match, lemma_count_concat, power, substitute, substitute_n, successor, ContextAction, Rule, Symbol,
    SymbolType,
};

verus! {

#[derive(Debug, Eq, Copy, Clone)]
pub enum Peano {
    X,
    Y,
    F,
    Right,
    Left,
}

impl Peano {
    pub open spec fn spec_index(self) -> u8 {
        match self {
            Peano::X => 0,
            Peano::Y => 1,
            Peano::F => 2,
            Peano::Right => 3,
            Peano::Left => 4,
        }
    }

    fn index(&self) -> (i: u8)
        ensures
            i == self.spec_index(),
    {
        match self {
            Peano::X => 0,
            Peano::Y => 1,
            Peano::F => 2,
            Peano::Right => 3,
            Peano::Left => 4,
        }
    }
}

impl PartialEq for Peano {
    fn eq(&self, other: &Self) -> (r: bool) {
        self.index() == other.index()
    }
}

impl PartialEqSpecImpl for Peano {
    open spec fn obeys_eq_spec() -> bool {
        true
    }

    open spec fn eq_spec(&self, other: &Peano) -> bool {
        self.spec_index() == other.spec_index()
    }
}

impl Symbol for Peano {
    open spec fn spec_symbol_type(&self) -> SymbolType {
        match self {
            Peano::X | Peano::Y => SymbolType::NonTerminal,
            _ => SymbolType::Terminal,
        }
    }

    open spec fn spec_context(&self) -> ContextAction {
        ContextAction::Consider
    }

    fn symbol_type(&self) -> (t: SymbolType) {
        match self {
            Peano::X | Peano::Y => SymbolType::NonTerminal,
            _ => SymbolType::Terminal,
        }
    }

    fn context(&self) -> (c: ContextAction) {
        ContextAction::Consider
    }
}

/// One rewriting of a symbol
pub open spec fn peano_successor(c: Peano) -> Seq<Peano> {
    match c {
        Peano::X => seq![Peano::X, Peano::F, Peano::Y, Peano::F, Peano::X, Peano::Right, Peano::F, Peano::Right, Peano::Y, Peano::F, Peano::X, Peano::F, Peano::Y, Peano::Left, Peano::F, Peano::Left, Peano::X, Peano::F, Peano::Y, Peano::F, Peano::X],
        Peano::Y => seq![Peano::Y, Peano::F, Peano::X, Peano::F, Peano::Y, Peano::Left, Peano::F, Peano::Left, Peano::X, Peano::F, Peano::Y, Peano::F, Peano::X, Peano::Right, Peano::F, Peano::Right, Peano::Y, Peano::F, Peano::X, Peano::F, Peano::Y],
        _ => seq![c],
    }
}

/// The Peano curve after `n` iterations
pub open spec fn peano_curve(n: nat) -> Seq<Peano> {
    substitute_n(seq![Peano::X], |c: Peano| peano_successor(c), n)
}

/// A symbol that is rewritten: `X` or `Y`
pub open spec fn is_variable(c: Peano) -> bool {
    c is X || c is Y
}

/// A symbol that turns: `Left` or `Right`
pub open spec fn is_turn(c: Peano) -> bool {
    c is Left || c is Right
}

proof fn lemma_peano_symbol(x: Peano)
    ensures
        count(peano_successor(x), |c: Peano| is_variable(c)) == if is_variable(x) { 9nat } else { 0nat },
        count(peano_successor(x), |c: Peano| c is F) == if is_variable(x) { 8nat } else if x is F { 1nat } else { 0nat },
        count(peano_successor(x), |c: Peano| is_turn(c)) == if is_variable(x) { 4nat } else if is_turn(x) { 1nat } else { 0nat },
        peano_successor(x).len() == if is_variable(x) { 21nat } else { 1nat },
{
    reveal_with_fuel(count, 22);
}

/// One pass turns each variable into nine, and adds eight `F`s, four turns and twenty
/// symbols per variable
proof fn lemma_peano_pass(s: Seq<Peano>)
    ensures
        count(substitute(s, |c: Peano| peano_successor(c)), |c: Peano| is_variable(c)) == 9 * count(s, |c: Peano| is_variable(c)),
        count(substitute(s, |c: Peano| peano_successor(c)), |c: Peano| c is F)
            == count(s, |c: Peano| c is F) + 8 * count(s, |c: Peano| is_variable(c)),
        count(substitute(s, |c: Peano| peano_successor(c)), |c: Peano| is_turn(c))
            == count(s, |c: Peano| is_turn(c)) + 4 * count(s, |c: Peano| is_variable(c)),
        substitute(s, |c: Peano| peano_successor(c)).len() == s.len() + 20 * count(s, |c: Peano| is_variable(c)),
    decreases s.len(),
{
    let f = |c: Peano| peano_successor(c);
    let pv = |c: Peano| is_variable(c);
    let pf = |c: Peano| c is F;
    let pt = |c: Peano| is_turn(c);
    if s.len() > 0 {
        let init = s.drop_last();
        let x = s.last();
        lemma_peano_pass(init);
        assert(substitute(s, f) == substitute(init, f) + peano_successor(x));
        lemma_count_concat(substitute(init, f), peano_successor(x), pv);
        lemma_count_concat(substitute(init, f), peano_successor(x), pf);
        lemma_count_concat(substitute(init, f), peano_successor(x), pt);
        lemma_peano_symbol(x);
        assert(count(s, pv) == count(init, pv) + if is_variable(x) { 1nat } else { 0nat });
        assert(count(s, pf) == count(init, pf) + if x is F { 1nat } else { 0nat });
        assert(count(s, pt) == count(init, pt) + if is_turn(x) { 1nat } else { 0nat });
    }
}

/// The Peano curve after `n` iterations holds `9^n` variables, `9^n - 1` `F`s and
/// `(9^n - 1) / 2` turns: `(5 * 9^n - 3) / 2` symbols in all.
pub proof fn lemma_peano_curve_counts(n: nat)
    ensures
        count(peano_curve(n), |c: Peano| is_variable(c)) == power(9, n),
        count(peano_curve(n), |c: Peano| c is F) + 1 == power(9, n),
        2 * count(peano_curve(n), |c: Peano| is_turn(c)) + 1 == power(9, n),
        2 * peano_curve(n).len() + 3 == 5 * power(9, n),
    decreases n,
{
    if n == 0 {
        reveal_with_fuel(count, 2);
    } else {
        lemma_peano_curve_counts((n - 1) as nat);
        lemma_peano_pass(peano_curve((n - 1) as nat));
    }
}

pub fn actions(scene_iter: u32) -> (r: Vec<Peano>)
    ensures
        r@ == peano_curve(scene_iter as nat),
        2 * r@.len() + 3 == 5 * power(9, scene_iter as nat),
{
    let rules = vec![
        Rule::Normal(Peano::X, &[Peano::X, Peano::F, Peano::Y, Peano::F, Peano::X, Peano::Right, Peano::F, Peano::Right, Peano::Y, Peano::F, Peano::X, Peano::F, Peano::Y, Peano::Left, Peano::F, Peano::Left, Peano::X, Peano::F, Peano::Y, Peano::F, Peano::X]),
        Rule::Normal(Peano::Y, &[Peano::Y, Peano::F, Peano::X, Peano::F, Peano::Y, Peano::Left, Peano::F, Peano::Left, Peano::X, Peano::F, Peano::Y, Peano::F, Peano::X, Peano::Right, Peano::F, Peano::Right, Peano::Y, Peano::F, Peano::X, Peano::F, Peano::Y]),
    ];
    let ghost rs = rules@;
    let r = evolve_normal(&[Peano::X], rules, scene_iter);
    proof {
        assert forall|c: Peano| #[trigger] successor(rs, c) == peano_successor(c) by {
            reveal_with_fuel(first_match, 3);
        }
        assert((|x: Peano| successor(rs, x)) =~= (|c: Peano| peano_successor(c)));
        assert(seq![Peano::X] =~= [Peano::X]@);
        lemma_peano_curve_counts(scene_iter as nat);
    }
    r
}

} // verus!
