//! The Heighway dragon curve.
use vstd::prelude::*;
use vstd::std_specs::cmp::PartialEqSpecImpl;

use super::evolve_normal;
use crate::lsystem::{
    count, first_match, lemma_count_concat, power, substitute, substitute_n, successor, ContextAction, Rule, Symbol,
    SymbolType,
};

verus! {

#[derive(Debug, Eq, Copy, Clone)]
pub enum Curve {
    F,
    G,
    X,
    Y,
}

impl Curve {
    pub open spec fn spec_index(self) -> u8 {
        match self {
            Curve::F => 0,
            Curve::G => 1,
            Curve::X => 2,
            Curve::Y => 3,
        }
    }

    fn index(&self) -> (i: u8)
        ensures
            i == self.spec_index(),
    {
        match self {
            Curve::F => 0,
            Curve::G => 1,
            Curve::X => 2,
            Curve::Y => 3,
        }
    }
}

impl PartialEq for Curve {
    fn eq(&self, other: &Self) -> (r: bool) {
        self.index() == other.index()
    }
}

impl PartialEqSpecImpl for Curve {
    open spec fn obeys_eq_spec() -> bool {
        true
    }

    open spec fn eq_spec(&self, other: &Curve) -> bool {
        self.spec_index() == other.spec_index()
    }
}

impl Symbol for Curve {
    open spec fn spec_symbol_type(&self) -> SymbolType {
        match self {
            Curve::F | Curve::G => SymbolType::NonTerminal,
            _ => SymbolType::Terminal,
        }
    }

    open spec fn spec_context(&self) -> ContextAction {
        ContextAction::Consider
    }

    fn symbol_type(&self) -> (t: SymbolType) {
        match self {
            Curve::F | Curve::G => SymbolType::NonTerminal,
            _ => SymbolType::Terminal,
        }
    }

    fn context(&self) -> (c: ContextAction) {
        ContextAction::Consider
    }
}

/// One rewriting of a dragon-curve symbol: `F → F X G`, `G → F Y G`
pub open spec fn dragon_successor(c: Curve) -> Seq<Curve> {
    match c {
        Curve::F => seq![Curve::F, Curve::X, Curve::G],
        Curve::G => seq![Curve::F, Curve::Y, Curve::G],
        _ => seq![c],
    }
}

/// The dragon curve after `n` iterations from `F`
pub open spec fn dragon_curve(n: nat) -> Seq<Curve> {
    substitute_n(seq![Curve::F], |c: Curve| dragon_successor(c), n)
}

/// A symbol that draws: `F` or `G`
pub open spec fn is_stroke(c: Curve) -> bool {
    c is F || c is G
}

/// A symbol that turns: `X` or `Y`
pub open spec fn is_turn(c: Curve) -> bool {
    c is X || c is Y
}

proof fn lemma_dragon_symbol(x: Curve)
    ensures
        count(dragon_successor(x), |c: Curve| is_stroke(c)) == if is_stroke(x) { 2nat } else { 0nat },
        count(dragon_successor(x), |c: Curve| is_turn(c)) == 1nat,
        dragon_successor(x).len() == if is_stroke(x) { 3nat } else { 1nat },
{
    reveal_with_fuel(count, 4);
}

/// One pass doubles the strokes, adds a turn per stroke, and adds two symbols per stroke
proof fn lemma_dragon_pass(s: Seq<Curve>)
    ensures
        count(substitute(s, |c: Curve| dragon_successor(c)), |c: Curve| is_stroke(c)) == 2 * count(s, |c: Curve| is_stroke(c)),
        count(substitute(s, |c: Curve| dragon_successor(c)), |c: Curve| is_turn(c))
            == count(s, |c: Curve| is_turn(c)) + count(s, |c: Curve| is_stroke(c)),
        substitute(s, |c: Curve| dragon_successor(c)).len() == s.len() + 2 * count(s, |c: Curve| is_stroke(c)),
    decreases s.len(),
{
    let f = |c: Curve| dragon_successor(c);
    let st = |c: Curve| is_stroke(c);
    let tu = |c: Curve| is_turn(c);
    if s.len() > 0 {
        let init = s.drop_last();
        let x = s.last();
        lemma_dragon_pass(init);
        assert(substitute(s, f) == substitute(init, f) + dragon_successor(x));
        lemma_count_concat(substitute(init, f), dragon_successor(x), st);
        lemma_count_concat(substitute(init, f), dragon_successor(x), tu);
        lemma_dragon_symbol(x);
        assert(count(s, st) == count(init, st) + if is_stroke(x) { 1nat } else { 0nat });
        assert(count(s, tu) == count(init, tu) + if is_turn(x) { 1nat } else { 0nat });
    }
}

/// The dragon curve after `n` iterations holds `2^n` strokes and `2^n - 1` turns:
/// `2^(n+1) - 1` symbols in all.
pub proof fn lemma_dragon_curve_counts(n: nat)
    ensures
        count(dragon_curve(n), |c: Curve| is_stroke(c)) == power(2, n),
        count(dragon_curve(n), |c: Curve| is_turn(c)) + 1 == power(2, n),
        dragon_curve(n).len() + 1 == power(2, n + 1),
    decreases n,
{
    if n == 0 {
        reveal_with_fuel(count, 2);
    } else {
        lemma_dragon_curve_counts((n - 1) as nat);
        lemma_dragon_pass(dragon_curve((n - 1) as nat));
    }
}

/// Strokes stand at the even positions of `s` and turns at the odd ones
pub open spec fn alternates(s: Seq<Curve>) -> bool {
    forall|j: int| 0 <= j < s.len() ==> (is_stroke(#[trigger] s[j]) <==> j % 2 == 0)
}

/// One pass keeps strokes and turns alternating, and keeps the parity of the length
proof fn lemma_dragon_pass_alternates(s: Seq<Curve>)
    requires
        alternates(s),
    ensures
        alternates(substitute(s, |c: Curve| dragon_successor(c))),
        substitute(s, |c: Curve| dragon_successor(c)).len() % 2 == s.len() % 2,
    decreases s.len(),
{
    let f = |c: Curve| dragon_successor(c);
    if s.len() > 0 {
        let init = s.drop_last();
        let x = s.last();
        assert forall|j: int| 0 <= j < init.len() implies (is_stroke(#[trigger] init[j]) <==> j % 2 == 0) by {
            assert(init[j] == s[j]);
        }
        lemma_dragon_pass_alternates(init);
        let a = substitute(init, f);
        let b = dragon_successor(x);
        assert(substitute(s, f) == a + b);
        assert(is_stroke(x) <==> init.len() % 2 == 0);
        assert forall|j: int| 0 <= j < (a + b).len() implies (is_stroke(#[trigger] (a + b)[j]) <==> j % 2 == 0) by {
            if j >= a.len() {
                assert((a + b)[j] == b[j - a.len()]);
            }
        }
    }
}

/// Strokes and turns alternate along the dragon curve: `F` and `G` stand at the even
/// positions, `X` and `Y` at the odd ones.
pub proof fn lemma_dragon_curve_alternates(n: nat)
    ensures
        alternates(dragon_curve(n)),
    decreases n,
{
    if n > 0 {
        lemma_dragon_curve_alternates((n - 1) as nat);
        lemma_dragon_pass_alternates(dragon_curve((n - 1) as nat));
    }
}

pub fn actions(scene_iter: u32) -> (r: Vec<Curve>)
    ensures
        r@ == dragon_curve(scene_iter as nat),
        r@.len() + 1 == power(2, scene_iter as nat + 1),
        alternates(r@),
{
    let rules = vec![
        Rule::Normal(Curve::F, &[Curve::F, Curve::X, Curve::G]),
        Rule::Normal(Curve::G, &[Curve::F, Curve::Y, Curve::G]),
    ];
    let ghost rs = rules@;
    let r = evolve_normal(&[Curve::F], rules, scene_iter);
    proof {
        assert forall|c: Curve| #[trigger] successor(rs, c) == dragon_successor(c) by {
            reveal_with_fuel(first_match, 3);
        }
        assert((|x: Curve| successor(rs, x)) =~= (|c: Curve| dragon_successor(c)));
        assert(seq![Curve::F] =~= [Curve::F]@);
        lemma_dragon_curve_counts(scene_iter as nat);
        lemma_dragon_curve_alternates(scene_iter as nat);
    }
    r
}

} // verus!
