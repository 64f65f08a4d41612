//! The Sierpinski triangle as an arrowhead of turns.
use vstd::prelude::*;
use vstd::std_specs::cmp::PartialEqSpecImpl;

use super::evolve_normal;
use crate::lsystem::{
    count, first_match, lemma_count_concat, power, substitute, substitute_n, successor, ContextAction, Rule, Symbol,
    SymbolType,
};

verus! {

#[derive(Debug, Eq, Copy, Clone)]
pub enum Sierpinski {
    F,
    G,
    X,
    Y,
}

impl Sierpinski {
    pub open spec fn spec_index(self) -> u8 {
        match self {
            Sierpinski::F => 0,
            Sierpinski::G => 1,
            Sierpinski::X => 2,
            Sierpinski::Y => 3,
        }
    }

    fn index(&self) -> (i: u8)
        ensures
            i == self.spec_index(),
    {
        match self {
            Sierpinski::F => 0,
            Sierpinski::G => 1,
            Sierpinski::X => 2,
            Sierpinski::Y => 3,
        }
    }
}

impl PartialEq for Sierpinski {
    fn eq(&self, other: &Self) -> (r: bool) {
        self.index() == other.index()
    }
}

impl PartialEqSpecImpl for Sierpinski {
    open spec fn obeys_eq_spec() -> bool {
        true
    }

    open spec fn eq_spec(&self, other: &Sierpinski) -> bool {
        self.spec_index() == other.spec_index()
    }
}

impl Symbol for Sierpinski {
    open spec fn spec_symbol_type(&self) -> SymbolType {
        match self {
            Sierpinski::F | Sierpinski::G => SymbolType::NonTerminal,
            _ => SymbolType::Terminal,
        }
    }

    open spec fn spec_context(&self) -> ContextAction {
        ContextAction::Consider
    }

    fn symbol_type(&self) -> (t: SymbolType) {
        match self {
            Sierpinski::F | Sierpinski::G => SymbolType::NonTerminal,
            _ => SymbolType::Terminal,
        }
    }

    fn context(&self) -> (c: ContextAction) {
        ContextAction::Consider
    }
}

/// One rewriting of a symbol
pub open spec fn sierpinski_successor(c: Sierpinski) -> Seq<Sierpinski> {
    match c {
        Sierpinski::F => seq![Sierpinski::F, Sierpinski::Y, Sierpinski::G, Sierpinski::X, Sierpinski::F, Sierpinski::X, Sierpinski::G, Sierpinski::Y, Sierpinski::F],
        Sierpinski::G => seq![Sierpinski::G, Sierpinski::G],
        _ => seq![c],
    }
}

/// The Sierpinski curve after `n` iterations
pub open spec fn sierpinski_curve(n: nat) -> Seq<Sierpinski> {
    substitute_n(seq![Sierpinski::F, Sierpinski::Y, Sierpinski::G, Sierpinski::Y, Sierpinski::G], |c: Sierpinski| sierpinski_successor(c), n)
}

/// A symbol that turns: `X` or `Y`
pub open spec fn is_turn(c: Sierpinski) -> bool {
    c is X || c is Y
}

proof fn lemma_sierpinski_symbol(x: Sierpinski)
    ensures
        count(sierpinski_successor(x), |c: Sierpinski| c is F) == if x is F { 3nat } else { 0nat },
        count(sierpinski_successor(x), |c: Sierpinski| c is G) == if x is F || x is G { 2nat } else { 0nat },
        count(sierpinski_successor(x), |c: Sierpinski| is_turn(c)) == if x is F { 4nat } else if is_turn(x) { 1nat } else { 0nat },
        sierpinski_successor(x).len() == if x is F { 9nat } else if x is G { 2nat } else { 1nat },
{
    reveal_with_fuel(count, 10);
}

/// One pass triples the `F`s, turns each `F` and each `G` into two `G`s, adds four turns
/// per `F`, and adds eight symbols per `F` and one per `G`
proof fn lemma_sierpinski_pass(s: Seq<Sierpinski>)
    ensures
        count(substitute(s, |c: Sierpinski| sierpinski_successor(c)), |c: Sierpinski| c is F) == 3 * count(s, |c: Sierpinski| c is F),
        count(substitute(s, |c: Sierpinski| sierpinski_successor(c)), |c: Sierpinski| c is G)
            == 2 * count(s, |c: Sierpinski| c is F) + 2 * count(s, |c: Sierpinski| c is G),
        count(substitute(s, |c: Sierpinski| sierpinski_successor(c)), |c: Sierpinski| is_turn(c))
            == count(s, |c: Sierpinski| is_turn(c)) + 4 * count(s, |c: Sierpinski| c is F),
        substitute(s, |c: Sierpinski| sierpinski_successor(c)).len()
            == s.len() + 8 * count(s, |c: Sierpinski| c is F) + count(s, |c: Sierpinski| c is G),
    decreases s.len(),
{
    let f = |c: Sierpinski| sierpinski_successor(c);
    let pf = |c: Sierpinski| c is F;
    let pg = |c: Sierpinski| c is G;
    let pt = |c: Sierpinski| is_turn(c);
    if s.len() > 0 {
        let init = s.drop_last();
        let x = s.last();
        lemma_sierpinski_pass(init);
        assert(substitute(s, f) == substitute(init, f) + sierpinski_successor(x));
        lemma_count_concat(substitute(init, f), sierpinski_successor(x), pf);
        lemma_count_concat(substitute(init, f), sierpinski_successor(x), pg);
        lemma_count_concat(substitute(init, f), sierpinski_successor(x), pt);
        lemma_sierpinski_symbol(x);
        assert(count(s, pf) == count(init, pf) + if x is F { 1nat } else { 0nat });
        assert(count(s, pg) == count(init, pg) + if x is G { 1nat } else { 0nat });
        assert(count(s, pt) == count(init, pt) + if is_turn(x) { 1nat } else { 0nat });
    }
}

/// The Sierpinski curve after `n` iterations holds `3^n` `F`s, `2 * 3^n` `G`s and
/// `2 * 3^n` turns: `5 * 3^n` symbols in all.
pub proof fn lemma_sierpinski_curve_counts(n: nat)
    ensures
        count(sierpinski_curve(n), |c: Sierpinski| c is F) == power(3, n),
        count(sierpinski_curve(n), |c: Sierpinski| c is G) == 2 * power(3, n),
        count(sierpinski_curve(n), |c: Sierpinski| is_turn(c)) == 2 * power(3, n),
        sierpinski_curve(n).len() == 5 * power(3, n),
    decreases n,
{
    if n == 0 {
        reveal_with_fuel(count, 6);
    } else {
        lemma_sierpinski_curve_counts((n - 1) as nat);
        lemma_sierpinski_pass(sierpinski_curve((n - 1) as nat));
    }
}

pub fn actions(scene_iter: u32) -> (r: Vec<Sierpinski>)
    ensures
        r@ == sierpinski_curve(scene_iter as nat),
        r@.len() == 5 * power(3, scene_iter as nat),
{
    let rules = vec![
        Rule::Normal(Sierpinski::F, &[Sierpinski::F, Sierpinski::Y, Sierpinski::G, Sierpinski::X, Sierpinski::F, Sierpinski::X, Sierpinski::G, Sierpinski::Y, Sierpinski::F]),
        Rule::Normal(Sierpinski::G, &[Sierpinski::G, Sierpinski::G]),
    ];
    let ghost rs = rules@;
    let r = evolve_normal(&[Sierpinski::F, Sierpinski::Y, Sierpinski::G, Sierpinski::Y, Sierpinski::G], rules, scene_iter);
    proof {
        assert forall|c: Sierpinski| #[trigger] successor(rs, c) == sierpinski_successor(c) by {
            reveal_with_fuel(first_match, 3);
        }
        assert((|x: Sierpinski| successor(rs, x)) =~= (|c: Sierpinski| sierpinski_successor(c)));
        assert(seq![Sierpinski::F, Sierpinski::Y, Sierpinski::G, Sierpinski::Y, Sierpinski::G] =~= [Sierpinski::F, Sierpinski::Y, Sierpinski::G, Sierpinski::Y, Sierpinski::G]@);
        lemma_sierpinski_curve_counts(scene_iter as nat);
    }
    r
}

} // verus!
