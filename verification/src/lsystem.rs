//! Bracketed L-systems: symbols, production rules and parallel rewriting.
use vstd::prelude::*;
use vstd::std_specs::cmp::PartialEqSpec;

verus! {

/// Whether a symbol is subject to rewriting
#[derive(Debug, PartialEq, Eq, Structural, Copy, Clone)]
pub enum SymbolType {
    Terminal,
    NonTerminal,
}

/// How a symbol participates in context-sensitive rule matching
#[derive(Debug, PartialEq, Eq, Structural, Copy, Clone)]
pub enum ContextAction {
    Ignore,
    Consider,
    BranchStart,
    BranchEnd,
}

/// An alphabet of an L-system.
///
/// Equality (`PartialEq`) decides whether a symbol matches the head or the
/// context of a rule.
pub trait Symbol: PartialEq + Copy + Clone + Sized {
    spec fn spec_symbol_type(&self) -> SymbolType;

    spec fn spec_context(&self) -> ContextAction;

    fn symbol_type(&self) -> (t: SymbolType)
        ensures
            t == self.spec_symbol_type(),
    ;

    fn context(&self) -> (c: ContextAction)
        ensures
            c == self.spec_context(),
    ;
}

/// `a` matches `b` under the alphabet's equality.
pub open spec fn same<S: PartialEq>(a: S, b: S) -> bool {
    a.eq_spec(&b)
}

/// Walks left from position `j` (inclusive) with `skip` enclosing sub-branches still to
/// leave; answers whether the first `Consider` symbol met on the path towards the root
/// matches `target`.
pub open spec fn left_walk<S: Symbol>(input: Seq<S>, j: int, skip: nat, target: S) -> bool
    decreases j + 1,
{
    if j < 0 || j >= input.len() {
        false
    } else {
        let ctx = input[j].spec_context();
        if ctx == ContextAction::BranchEnd {
            left_walk(input, j - 1, skip + 1, target)
        } else if ctx == ContextAction::BranchStart && skip > 0 {
            left_walk(input, j - 1, (skip - 1) as nat, target)
        } else if ctx == ContextAction::Consider && skip == 0 {
            same(input[j], target)
        } else {
            left_walk(input, j - 1, skip, target)
        }
    }
}

/// `target` is the nearest `Consider` symbol to the left of `index`, sub-branches skipped
pub open spec fn spec_path_left<S: Symbol>(input: Seq<S>, index: int, target: S) -> bool {
    left_walk(input, index - 1, 0, target)
}

fn path_left<S: Symbol>(input: &[S], index: usize, target: S) -> (r: bool)
    requires
        S::obeys_eq_spec(),
        index <= input@.len(),
    ensures
        r == spec_path_left(input@, index as int, target),
{
    let mut skip: usize = 0;
    let mut i: usize = index;
    while i > 0
        invariant
            S::obeys_eq_spec(),
            i <= index <= input@.len(),
            skip <= index - i,
            spec_path_left(input@, index as int, target) == left_walk(input@, i - 1, skip as nat, target),
        decreases i,
    {
        i = i - 1;
        let ctx = input[i].context();
        if ctx == ContextAction::BranchEnd {
            skip = skip + 1;
        } else if ctx == ContextAction::BranchStart && skip > 0 {
            skip = skip - 1;
        } else if ctx == ContextAction::Consider && skip == 0 {
            return input[i] == target;
        }
    }
    false
}


/// Walks right from position `j` at bracket `depth` relative to the start; `skip` holds
/// the depth whose closing bracket ends a sub-branch being skipped. A closing bracket at
/// depth zero ends the branch the walk started on: nothing beyond it is reachable.
pub open spec fn right_walk<S: Symbol>(input: Seq<S>, j: int, depth: nat, skip: Option<nat>, target: S) -> bool
    decreases input.len() - j,
{
    if j < 0 || j >= input.len() {
        false
    } else {
        let ctx = input[j].spec_context();
        if ctx == ContextAction::BranchStart {
            right_walk(input, j + 1, depth + 1, skip, target)
        } else if ctx == ContextAction::BranchEnd {
            if depth == 0 {
                false
            } else {
                let d = (depth - 1) as nat;
                right_walk(input, j + 1, d, if skip == Some(d) { None } else { skip }, target)
            }
        } else if ctx == ContextAction::Consider && skip is None {
            if same(input[j], target) {
                true
            } else if depth == 0 {
                false
            } else {
                right_walk(input, j + 1, depth, Some((depth - 1) as nat), target)
            }
        } else {
            right_walk(input, j + 1, depth, skip, target)
        }
    }
}

/// Whether `target` is a reachable `Consider` symbol to the right of `index`: on the
/// same branch, or at the start of any branch that leaves from it
pub open spec fn spec_tree_right<S: Symbol>(input: Seq<S>, index: int, target: S) -> bool {
    right_walk(input, index + 1, 0, None, target)
}

fn tree_right<S: Symbol>(input: &[S], index: usize, target: S) -> (r: bool)
    requires
        S::obeys_eq_spec(),
        index < input@.len(),
    ensures
        r == spec_tree_right(input@, index as int, target),
{
    let mut skip: Option<usize> = None;
    let mut depth: usize = 0;
    let n = input.len();
    let mut j: usize = index + 1;
    while j < n
        invariant
            S::obeys_eq_spec(),
            n == input@.len(),
            index < j <= n,
            depth <= j - index - 1,
            skip matches Some(k) ==> k < depth,
            spec_tree_right(input@, index as int, target) == right_walk(
                input@,
                j as int,
                depth as nat,
                match skip {
                    Some(k) => Some(k as nat),
                    None => None,
                },
                target,
            ),
        decreases input@.len() - j,
    {
        let s = input[j];
        let ctx = s.context();
        assert(s == input@[j as int]);
        if ctx == ContextAction::BranchStart {
            depth = depth + 1;
        } else if ctx == ContextAction::BranchEnd {
            if depth == 0 {
                return false;
            }
            depth = depth - 1;
            if let Some(skip_depth) = skip {
                if skip_depth == depth {
                    skip = None;
                }
            }
        } else if ctx == ContextAction::Consider && skip.is_none() {
            if s == target {
                return true;
            }
            if depth == 0 {
                return false;
            }
            skip = Some(depth - 1);
        }
        j = j + 1;
    }
    false
}

/// The chance that a stochastic rule fires, as a ratio `numerator / denominator`
/// with `0 < denominator` and `numerator <= denominator`
#[derive(Debug, Copy, Clone)]
pub struct Probability {
    numerator: u32,
    denominator: u32,
}

impl Probability {
    #[verifier::type_invariant]
    spec fn valid(self) -> bool {
        0 < self.denominator && self.numerator <= self.denominator
    }

    pub closed spec fn num(self) -> nat {
        self.numerator as nat
    }

    pub closed spec fn den(self) -> nat {
        self.denominator as nat
    }

    /// The chance `numerator / denominator`; `None` unless `0 < denominator` and
    /// `numerator <= denominator`
    pub fn ratio(numerator: u32, denominator: u32) -> (r: Option<Probability>)
        ensures
            r is Some <==> (0 < denominator && numerator <= denominator),
            r matches Some(p) ==> p.num() == numerator && p.den() == denominator,
    {
        if 0 < denominator && numerator <= denominator {
            Some(Probability { numerator, denominator })
        } else {
            None
        }
    }

    /// Probability zero
    pub fn never() -> (p: Probability)
        ensures
            p.num() == 0,
            p.den() == 1,
    {
        Probability { numerator: 0, denominator: 1 }
    }

    /// Probability one
    pub fn always() -> (p: Probability)
        ensures
            p.num() == 1,
            p.den() == 1,
    {
        Probability { numerator: 1, denominator: 1 }
    }

    pub fn numerator(&self) -> (n: u32)
        ensures
            n == self.num(),
    {
        self.numerator
    }

    pub fn denominator(&self) -> (d: u32)
        ensures
            d == self.den(),
            0 < d,
            self.num() <= d,
    {
        proof {
            use_type_invariant(self);
        }
        self.denominator
    }

    /// The chance is zero
    pub open spec fn is_never(self) -> bool {
        self.num() == 0
    }

    /// The chance is one
    pub open spec fn is_always(self) -> bool {
        self.num() == self.den()
    }
}

/// The source of the random draws that stochastic rules make
pub trait Dice {
    /// The chances these dice have been asked to draw with, in order
    spec fn chances(&self) -> Seq<Probability>;

    /// Draws `true` with probability `chance`, and records the chance asked
    fn roll(&mut self, chance: Probability) -> (hit: bool)
        ensures
            chance.is_never() ==> !hit,
            chance.is_always() ==> hit,
            final(self).chances() == old(self).chances().push(chance),
    ;
}

/// The symbols a parametric production appends
pub type Produced<S> = Seq<S>;

/// A parametric production: inspects the symbol being rewritten (and any value it
/// carries) and appends its successor to the output.
pub trait Production<S> {
    /// The production, given `symbol`, can report `fired` and append `added`
    spec fn produces(&self, symbol: S, fired: bool, added: Produced<S>) -> bool;

    /// Appends to `out` (leaving what it held in place) and reports whether the
    /// production applied; the report and what was appended are an outcome of
    /// `produces` for `symbol`
    fn produce(&self, symbol: &S, out: &mut Vec<S>) -> (fired: bool)
        ensures
            old(out)@.len() <= final(out)@.len(),
            final(out)@.subrange(0, old(out)@.len() as int) == old(out)@,
            self.produces(*symbol, fired, final(out)@.subrange(old(out)@.len() as int, final(out)@.len() as int)),
    ;
}

/// A single production rule
///
/// - `Normal(head, rhs)`
/// - `Stochastic(head, prob, rhs)`
/// - `Parametric(head, f)`
/// - `ContextSensitive(head, left, right, rhs)`
#[derive(Clone, Copy)]
#[verifier::reject_recursive_types(S)]
pub enum Rule<'a, S> {
    Normal(S, &'a [S]),
    Stochastic(S, Probability, &'a [S]),
    Parametric(S, &'a dyn Production<S>),
    ContextSensitive(S, Option<S>, Option<S>, &'a [S]),
}

/// What one rule does to one symbol: whether it fires, and what it appends.
/// `draw` stands for the outcome of whatever is left to chance or to a production:
/// the coin of a stochastic rule; the report and the appended symbols of a parametric
/// one.
pub open spec fn rule_result<'a, S: Symbol>(rule: Rule<'a, S>, input: Seq<S>, i: int, draw: (bool, Seq<S>)) -> (bool, Seq<S>) {
    let sym = input[i];
    let miss = (false, Seq::<S>::empty());
    if sym.spec_symbol_type() != SymbolType::NonTerminal {
        miss
    } else {
        match rule {
            Rule::ContextSensitive(head, left, right, res) => {
                if same(sym, head) && (left is Some || right is Some)
                    && (left matches Some(l) ==> spec_path_left(input, i, l))
                    && (right matches Some(r) ==> spec_tree_right(input, i, r)) {
                    (true, res@)
                } else {
                    miss
                }
            },
            Rule::Parametric(head, _) => if same(sym, head) { draw } else { miss },
            Rule::Stochastic(head, _, res) => if same(sym, head) && draw.0 { (true, res@) } else { miss },
            Rule::Normal(head, res) => if same(sym, head) { (true, res@) } else { miss },
        }
    }
}

/// The chances a rule asks of the dice when tried on `sym`: its probability, for a
/// stochastic rule whose head matches a non-terminal `sym`; none otherwise
pub open spec fn asked<'a, S: Symbol>(rule: Rule<'a, S>, sym: S) -> Seq<Probability> {
    match rule {
        Rule::Stochastic(head, p, _) => if sym.spec_symbol_type() == SymbolType::NonTerminal && same(sym, head) {
            seq![p]
        } else {
            Seq::empty()
        },
        _ => Seq::empty(),
    }
}

/// `draw` is an outcome that the rule can give `sym`: one the coin allows a stochastic
/// rule, one the production allows a parametric rule
pub open spec fn draw_allowed<'a, S: Symbol>(rule: Rule<'a, S>, sym: S, draw: (bool, Seq<S>)) -> bool {
    let applies = sym.spec_symbol_type() == SymbolType::NonTerminal;
    match rule {
        Rule::Stochastic(head, p, _) => (applies && same(sym, head)) ==> ((p.is_never() ==> !draw.0) && (p.is_always() ==> draw.0)),
        Rule::Parametric(head, f) => (applies && same(sym, head)) ==> f.produces(sym, draw.0, draw.1),
        _ => true,
    }
}

/// A vector holding a copy of every item of `items`, in order
pub(crate) fn copied<S: Copy>(items: &[S]) -> (v: Vec<S>)
    ensures
        v@ == items@,
{
    let mut v: Vec<S> = Vec::new();
    append_slice(&mut v, items);
    assert(v@ =~= items@);
    v
}

/// Appends every item of `items` to `out`, in order
fn append_slice<S: Copy>(out: &mut Vec<S>, items: &[S])
    ensures
        final(out)@ == old(out)@ + items@,
{
    let n = items.len();
    let mut j: usize = 0;
    while j < n
        invariant
            n == items@.len(),
            j <= n,
            out@ == old(out)@ + items@.subrange(0, j as int),
        decreases n - j,
    {
        out.push(items[j]);
        j = j + 1;
        assert(out@ =~= old(out)@ + items@.subrange(0, j as int));
    }
    assert(items@.subrange(0, n as int) =~= items@);
}

impl<'a, S: Symbol> Rule<'a, S> {
    pub open spec fn spec_priority(self) -> u8 {
        match self {
            Rule::ContextSensitive(..) => 0,
            Rule::Parametric(..) => 1,
            Rule::Stochastic(..) => 2,
            Rule::Normal(..) => 3,
        }
    }

    fn priority(&self) -> (p: u8)
        ensures
            p == self.spec_priority(),
    {
        match self {
            Rule::ContextSensitive(..) => 0,
            Rule::Parametric(..) => 1,
            Rule::Stochastic(..) => 2,
            Rule::Normal(..) => 3,
        }
    }

    /// Attempts to apply this rule to the symbol at `index` in `input`. On match,
    /// appends the production to `out` and returns `true`
    pub fn apply<D: Dice>(&self, index: usize, input: &[S], out: &mut Vec<S>, dice: &mut D) -> (fired: bool)
        requires
            S::obeys_eq_spec(),
            index < input@.len(),
        ensures
            old(out)@.len() <= final(out)@.len(),
            final(out)@.subrange(0, old(out)@.len() as int) == old(out)@,
            ({
                let added = final(out)@.subrange(old(out)@.len() as int, final(out)@.len() as int);
                &&& draw_allowed(*self, input@[index as int], (fired, added))
                &&& rule_result(*self, input@, index as int, (fired, added)) == (fired, added)
            }),
            final(dice).chances() == old(dice).chances() + asked(*self, input@[index as int]),
    {
        let symbol = input[index];
        let ghost before = out@;
        proof {
            assert(old(dice).chances() + Seq::<Probability>::empty() =~= old(dice).chances());
            if let Rule::Stochastic(_, p, _) = *self {
                assert(old(dice).chances().push(p) =~= old(dice).chances() + seq![p]);
            }
        }

        if symbol.symbol_type() != SymbolType::NonTerminal {
            assert(out@.subrange(0, before.len() as int) =~= before);
            assert(out@.subrange(before.len() as int, out@.len() as int) =~= Seq::<S>::empty());
            return false;
        }

        match self {
            Rule::ContextSensitive(head, left, right, res) => {
                let cond = symbol == *head && (left.is_some() || right.is_some()) && match left {
                    Some(l) => path_left(input, index, *l),
                    None => true,
                } && match right {
                    Some(r) => tree_right(input, index, *r),
                    None => true,
                };
                if cond {
                    append_slice(out, res);
                    assert(out@.subrange(0, before.len() as int) =~= before);
                    assert(out@.subrange(before.len() as int, out@.len() as int) =~= res@);
                    true
                } else {
                    assert(out@.subrange(0, before.len() as int) =~= before);
                    assert(out@.subrange(before.len() as int, out@.len() as int) =~= Seq::<S>::empty());
                    false
                }
            },
            Rule::Parametric(head, func) => {
                if symbol == *head {
                    func.produce(&symbol, out)
                } else {
                    assert(out@.subrange(0, before.len() as int) =~= before);
                    assert(out@.subrange(before.len() as int, out@.len() as int) =~= Seq::<S>::empty());
                    false
                }
            },
            Rule::Stochastic(head, prob, res) => {
                if symbol == *head && dice.roll(*prob) {
                    append_slice(out, res);
                    assert(out@.subrange(0, before.len() as int) =~= before);
                    assert(out@.subrange(before.len() as int, out@.len() as int) =~= res@);
                    true
                } else {
                    assert(out@.subrange(0, before.len() as int) =~= before);
                    assert(out@.subrange(before.len() as int, out@.len() as int) =~= Seq::<S>::empty());
                    false
                }
            },
            Rule::Normal(head, res) => {
                if symbol == *head {
                    append_slice(out, res);
                    assert(out@.subrange(0, before.len() as int) =~= before);
                    assert(out@.subrange(before.len() as int, out@.len() as int) =~= res@);
                    true
                } else {
                    assert(out@.subrange(0, before.len() as int) =~= before);
                    assert(out@.subrange(before.len() as int, out@.len() as int) =~= Seq::<S>::empty());
                    false
                }
            },
        }
    }
}


/// The successor of the symbol at `i`, trying `rules` from `k` on: the output of the
/// first rule that fires, after whatever the rules passed over appended; the symbol
/// itself when none fires. `draws[k]` is the outcome chance or the production gives
/// rule `k`. `None` where a draw is not one the rule can give.
pub open spec fn expand<'a, S: Symbol>(
    rules: Seq<Rule<'a, S>>,
    input: Seq<S>,
    i: int,
    k: int,
    draws: Seq<(bool, Seq<S>)>,
) -> Option<Seq<S>>
    decreases rules.len() - k,
{
    if k >= rules.len() {
        Some(seq![input[i]])
    } else if !draw_allowed(rules[k], input[i], draws[k]) {
        None
    } else {
        let o = rule_result(rules[k], input, i, draws[k]);
        if o.0 {
            Some(o.1)
        } else {
            match expand(rules, input, i, k + 1, draws) {
                Some(rest) => Some(o.1 + rest),
                None => None,
            }
        }
    }
}

/// The chances asked while rewriting the symbol at `i`, trying `rules` from `k` on until
/// one fires, rule `k` drawing `draws[k]`
pub open spec fn expand_chances<'a, S: Symbol>(
    rules: Seq<Rule<'a, S>>,
    input: Seq<S>,
    i: int,
    k: int,
    draws: Seq<(bool, Seq<S>)>,
) -> Seq<Probability>
    decreases rules.len() - k,
{
    if k >= rules.len() {
        Seq::empty()
    } else if rule_result(rules[k], input, i, draws[k]).0 {
        asked(rules[k], input[i])
    } else {
        asked(rules[k], input[i]) + expand_chances(rules, input, i, k + 1, draws)
    }
}

/// The chances asked while rewriting the first `ds.len()` symbols of `input`, in order
pub open spec fn rewrite_chances<'a, S: Symbol>(
    rules: Seq<Rule<'a, S>>,
    input: Seq<S>,
    ds: Seq<Seq<(bool, Seq<S>)>>,
) -> Seq<Probability>
    decreases ds.len(),
{
    if ds.len() == 0 {
        Seq::empty()
    } else {
        rewrite_chances(rules, input, ds.drop_last()) + expand_chances(rules, input, ds.len() - 1, 0, ds.last())
    }
}

/// The concatenated successors of the first `ds.len()` symbols of `input`, the symbol at
/// `i` drawing `ds[i]`
pub open spec fn rewrite<'a, S: Symbol>(
    rules: Seq<Rule<'a, S>>,
    input: Seq<S>,
    ds: Seq<Seq<(bool, Seq<S>)>>,
) -> Option<Seq<S>>
    decreases ds.len(),
{
    if ds.len() == 0 {
        Some(Seq::empty())
    } else {
        match (rewrite(rules, input, ds.drop_last()), expand(rules, input, ds.len() - 1, 0, ds.last())) {
            (Some(a), Some(b)) => Some(a + b),
            _ => None,
        }
    }
}

/// One parallel rewriting pass of `rules` can turn `a` into `b`
pub open spec fn steps_to<'a, S: Symbol>(rules: Seq<Rule<'a, S>>, a: Seq<S>, b: Seq<S>) -> bool {
    exists|ds: Seq<Seq<(bool, Seq<S>)>>| ds.len() == a.len() && #[trigger] rewrite(rules, a, ds) == Some(b)
}

/// `n` rewriting passes can turn `a` into `b`
pub open spec fn iterated<'a, S: Symbol>(rules: Seq<Rule<'a, S>>, a: Seq<S>, n: nat, b: Seq<S>) -> bool
    decreases n,
{
    if n == 0 {
        a == b
    } else {
        exists|mid: Seq<S>| iterated(rules, a, (n - 1) as nat, mid) && #[trigger] steps_to(rules, mid, b)
    }
}

/// One rewriting pass of `rules` can turn `a` into `b` while asking the dice for the
/// chances `chances`, in order: the probability of each stochastic rule tried
pub open spec fn steps_asking<'a, S: Symbol>(rules: Seq<Rule<'a, S>>, a: Seq<S>, b: Seq<S>, chances: Seq<Probability>) -> bool {
    exists|ds: Seq<Seq<(bool, Seq<S>)>>|
        ds.len() == a.len() && #[trigger] rewrite(rules, a, ds) == Some(b) && rewrite_chances(rules, a, ds) == chances
}

/// `n` rewriting passes can turn `a` into `b` while asking the dice for `chances`, in
/// order
pub open spec fn iterated_asking<'a, S: Symbol>(rules: Seq<Rule<'a, S>>, a: Seq<S>, n: nat, b: Seq<S>, chances: Seq<Probability>) -> bool
    decreases n,
{
    if n == 0 {
        a == b && chances.len() == 0
    } else {
        exists|mid: Seq<S>, j: int|
            0 <= j <= chances.len() && iterated_asking(rules, a, (n - 1) as nat, mid, chances.subrange(0, j))
                && #[trigger] steps_asking(rules, mid, b, chances.subrange(j, chances.len() as int))
    }
}

/// The rules of priority `p`, in the order given
pub open spec fn with_priority<'a, S: Symbol>(rules: Seq<Rule<'a, S>>, p: u8) -> Seq<Rule<'a, S>>
    decreases rules.len(),
{
    if rules.len() == 0 {
        Seq::empty()
    } else {
        let rest = with_priority(rules.drop_last(), p);
        if rules.last().spec_priority() == p {
            rest.push(rules.last())
        } else {
            rest
        }
    }
}

/// `rules` stably sorted by priority: context-sensitive, parametric, stochastic, normal
pub open spec fn by_priority<'a, S: Symbol>(rules: Seq<Rule<'a, S>>) -> Seq<Rule<'a, S>> {
    with_priority(rules, 0) + with_priority(rules, 1) + with_priority(rules, 2) + with_priority(rules, 3)
}

/// The rules of priority below `p`, stably sorted by priority
pub open spec fn priorities_below<'a, S: Symbol>(rules: Seq<Rule<'a, S>>, p: u8) -> Seq<Rule<'a, S>>
    decreases p,
{
    if p == 0 {
        Seq::empty()
    } else {
        priorities_below(rules, (p - 1) as u8) + with_priority(rules, (p - 1) as u8)
    }
}

/// Concatenation of what the first `k` draws appended
pub open spec fn added_prefix<S>(d: Seq<(bool, Seq<S>)>, k: int) -> Seq<S>
    decreases k,
{
    if k <= 0 {
        Seq::empty()
    } else {
        added_prefix(d, k - 1) + d[k - 1].1
    }
}

proof fn lemma_added_prefix_frame<S>(a: Seq<(bool, Seq<S>)>, b: Seq<(bool, Seq<S>)>, k: int)
    requires
        k <= a.len(),
        k <= b.len(),
        forall|j: int| 0 <= j < k ==> a[j] == b[j],
    ensures
        added_prefix(a, k) == added_prefix(b, k),
    decreases k,
{
    if k > 0 {
        lemma_added_prefix_frame(a, b, k - 1);
    }
}

proof fn lemma_expand_passed<'a, S: Symbol>(
    rules: Seq<Rule<'a, S>>,
    input: Seq<S>,
    i: int,
    d: Seq<(bool, Seq<S>)>,
    k: int,
)
    requires
        0 <= k <= rules.len(),
        forall|j: int| 0 <= j < k ==> {
            &&& draw_allowed(rules[j], input[i], #[trigger] d[j])
            &&& rule_result(rules[j], input, i, d[j]) == d[j]
            &&& !d[j].0
        },
    ensures
        expand(rules, input, i, 0, d) == match expand(rules, input, i, k, d) {
            Some(t) => Some(added_prefix(d, k) + t),
            None => None,
        },
    decreases k,
{
    if k == 0 {
        assert(added_prefix(d, 0) == Seq::<S>::empty());
        match expand(rules, input, i, 0, d) {
            Some(t) => assert(Seq::<S>::empty() + t =~= t),
            None => {},
        }
    } else {
        lemma_expand_passed(rules, input, i, d, k - 1);
        assert(draw_allowed(rules[k - 1], input[i], d[k - 1]));
        match expand(rules, input, i, k, d) {
            Some(t) => {
                assert(added_prefix(d, k - 1) + (d[k - 1].1 + t) =~= added_prefix(d, k) + t);
            },
            None => {},
        }
    }
}

/// Concatenation of the chances asked by the first `k` of `rules` tried on `sym`
pub open spec fn asked_prefix<'a, S: Symbol>(rules: Seq<Rule<'a, S>>, sym: S, k: int) -> Seq<Probability>
    decreases k,
{
    if k <= 0 {
        Seq::empty()
    } else {
        asked_prefix(rules, sym, k - 1) + asked(rules[k - 1], sym)
    }
}

proof fn lemma_expand_chances_passed<'a, S: Symbol>(
    rules: Seq<Rule<'a, S>>,
    input: Seq<S>,
    i: int,
    d: Seq<(bool, Seq<S>)>,
    k: int,
)
    requires
        0 <= k <= rules.len(),
        forall|j: int| 0 <= j < k ==> !(#[trigger] rule_result(rules[j], input, i, d[j])).0,
    ensures
        expand_chances(rules, input, i, 0, d) == asked_prefix(rules, input[i], k) + expand_chances(rules, input, i, k, d),
    decreases k,
{
    if k == 0 {
        assert(Seq::<Probability>::empty() + expand_chances(rules, input, i, 0, d) =~= expand_chances(rules, input, i, 0, d));
    } else {
        lemma_expand_chances_passed(rules, input, i, d, k - 1);
        assert(!rule_result(rules[k - 1], input, i, d[k - 1]).0);
        assert(asked_prefix(rules, input[i], k - 1) + (asked(rules[k - 1], input[i]) + expand_chances(rules, input, i, k, d))
            =~= asked_prefix(rules, input[i], k) + expand_chances(rules, input, i, k, d));
    }
}

#[verifier::reject_recursive_types(S)]
pub struct LSystem<'a, S: Symbol> {
    state: Vec<S>,
    rules: Vec<Rule<'a, S>>,
}

impl<'a, S: Symbol> View for LSystem<'a, S> {
    type V = Seq<S>;

    closed spec fn view(&self) -> Seq<S> {
        self.state@
    }
}

impl<'a, S: Symbol> LSystem<'a, S> {
    /// The rules, in the order they are tried
    pub closed spec fn rule_seq(&self) -> Seq<Rule<'a, S>> {
        self.rules@
    }

    /// Construct an L-system from an initial string and a set of rules
    pub fn new(initial: &[S], rules: Vec<Rule<'a, S>>) -> (ls: Self)
        ensures
            ls@ == initial@,
            ls.rule_seq() == by_priority(rules@),
    {
        let mut sorted: Vec<Rule<'a, S>> = Vec::new();
        let nr = rules.len();
        let mut p: u8 = 0;
        while p < 4
            invariant
                nr == rules@.len(),
                p <= 4,
                sorted@ == priorities_below(rules@, p),
            decreases 4 - p,
        {
            let ghost before = sorted@;
            let mut j: usize = 0;
            while j < nr
                invariant
                    nr == rules@.len(),
                    p < 4,
                    j <= nr,
                    sorted@ == before + with_priority(rules@.subrange(0, j as int), p),
                decreases nr - j,
            {
                let r = rules[j];
                proof {
                    assert(rules@.subrange(0, j + 1).drop_last() =~= rules@.subrange(0, j as int));
                    assert(rules@.subrange(0, j + 1).last() == r);
                }
                if r.priority() == p {
                    sorted.push(r);
                }
                j = j + 1;
                proof {
                    assert(sorted@ =~= before + with_priority(rules@.subrange(0, j as int), p));
                }
            }
            proof {
                assert(rules@.subrange(0, nr as int) =~= rules@);
            }
            p = p + 1;
        }
        proof {
            reveal_with_fuel(priorities_below, 5);
            assert(priorities_below(rules@, 4) =~= by_priority(rules@));
        }
        let mut state: Vec<S> = Vec::new();
        append_slice(&mut state, initial);
        assert(state@ =~= initial@);
        LSystem { state, rules: sorted }
    }

    /// Return the current string as an immutable slice
    pub fn current(&self) -> (s: &[S])
        ensures
            s@ == self@,
    {
        self.state.as_slice()
    }

    /// Apply one rewriting pass
    pub fn step<D: Dice>(&mut self, dice: &mut D)
        requires
            S::obeys_eq_spec(),
        ensures
            final(self).rule_seq() == old(self).rule_seq(),
            steps_to(old(self).rule_seq(), old(self)@, final(self)@),
            old(dice).chances().len() <= final(dice).chances().len(),
            final(dice).chances().subrange(0, old(dice).chances().len() as int) == old(dice).chances(),
            steps_asking(
                old(self).rule_seq(),
                old(self)@,
                final(self)@,
                final(dice).chances().subrange(old(dice).chances().len() as int, final(dice).chances().len() as int),
            ),
    {
        let mut current: Vec<S> = Vec::new();
        std::mem::swap(&mut current, &mut self.state);
        let mut next: Vec<S> = Vec::new();
        let n = current.len();
        let nr = self.rules.len();
        let ghost rules = self.rules@;
        let ghost input = current@;
        let ghost mut ds: Seq<Seq<(bool, Seq<S>)>> = Seq::empty();
        let ghost c0 = dice.chances();
        assert(c0 + rewrite_chances(rules, input, ds) =~= c0);

        let mut i: usize = 0;
        while i < n
            invariant
                S::obeys_eq_spec(),
                n == input.len(),
                input == current@,
                nr == rules.len(),
                rules == self.rules@,
                i <= n,
                ds.len() == i,
                rewrite(rules, input, ds) == Some(next@),
                dice.chances() == c0 + rewrite_chances(rules, input, ds),
            decreases n - i,
        {
            let sym = current[i];
            let ghost start = next@;
            let ghost cstart = dice.chances();
            assert(cstart + asked_prefix(rules, sym, 0) =~= cstart);
            let ghost mut d: Seq<(bool, Seq<S>)> = Seq::empty();
            let mut fired = false;
            let mut k: usize = 0;
            while !fired && k < nr
                invariant
                    S::obeys_eq_spec(),
                    n == input.len(),
                    input == current@,
                    nr == rules.len(),
                    rules == self.rules@,
                    i < n,
                    sym == input[i as int],
                    k <= nr,
                    d.len() == k,
                    forall|j: int| 0 <= j < k ==> {
                        &&& draw_allowed(rules[j], input[i as int], #[trigger] d[j])
                        &&& rule_result(rules[j], input, i as int, d[j]) == d[j]
                    },
                    forall|j: int| 0 <= j < k - 1 ==> !(#[trigger] d[j]).0,
                    fired ==> k >= 1 && d[k - 1].0,
                    !fired ==> (forall|j: int| 0 <= j < k ==> !(#[trigger] d[j]).0),
                    next@ == start + added_prefix(d, k as int),
                    dice.chances() == cstart + asked_prefix(rules, sym, k as int),
                decreases nr - k,
            {
                let ghost before = next@;
                let ghost cbefore = dice.chances();
                let f = self.rules[k].apply(i, current.as_slice(), &mut next, dice);
                proof {
                    assert(cbefore + asked(rules[k as int], sym) =~= cstart + asked_prefix(rules, sym, k + 1));
                    let added = next@.subrange(before.len() as int, next@.len() as int);
                    let old_d = d;
                    d = d.push((f, added));
                    lemma_added_prefix_frame(old_d, d, k as int);
                    assert(added_prefix(d, k + 1) == added_prefix(d, k as int) + added);
                    assert(next@ =~= before + added);
                    assert(next@ =~= start + added_prefix(d, k + 1));
                }
                fired = f;
                k = k + 1;
            }
            proof {
                if fired {
                    lemma_expand_passed(rules, input, i as int, d, k - 1);
                    lemma_expand_chances_passed(rules, input, i as int, d, k - 1);
                    assert(rule_result(rules[k - 1], input, i as int, d[k - 1]).0);
                    assert(asked_prefix(rules, sym, k - 1) + asked(rules[k - 1], sym) == asked_prefix(rules, sym, k as int));
                } else {
                    lemma_expand_passed(rules, input, i as int, d, k as int);
                    lemma_expand_chances_passed(rules, input, i as int, d, k as int);
                    assert(asked_prefix(rules, sym, k as int) + Seq::<Probability>::empty() =~= asked_prefix(rules, sym, k as int));
                }
                assert(expand_chances(rules, input, i as int, 0, d) == asked_prefix(rules, sym, k as int));
            }
            if !fired {
                next.push(sym);
            }
            proof {
                let ds2 = ds.push(d);
                assert(ds2.drop_last() =~= ds);
                assert(c0 + rewrite_chances(rules, input, ds) + expand_chances(rules, input, i as int, 0, d)
                    =~= c0 + rewrite_chances(rules, input, ds2));
                ds = ds2;
            }
            i = i + 1;
        }
        proof {
            let c = dice.chances();
            assert(c.subrange(0, c0.len() as int) =~= c0);
            assert(c.subrange(c0.len() as int, c.len() as int) =~= rewrite_chances(rules, input, ds));
            assert(rewrite(rules, input, ds) == Some(next@));
        }
        self.state = next;
    }

    /// Apply `iterations` rewriting passes
    pub fn evolve<D: Dice>(&mut self, iterations: usize, dice: &mut D)
        requires
            S::obeys_eq_spec(),
        ensures
            final(self).rule_seq() == old(self).rule_seq(),
            iterated(old(self).rule_seq(), old(self)@, iterations as nat, final(self)@),
            old(dice).chances().len() <= final(dice).chances().len(),
            final(dice).chances().subrange(0, old(dice).chances().len() as int) == old(dice).chances(),
            iterated_asking(
                old(self).rule_seq(),
                old(self)@,
                iterations as nat,
                final(self)@,
                final(dice).chances().subrange(old(dice).chances().len() as int, final(dice).chances().len() as int),
            ),
    {
        let ghost rules = self.rule_seq();
        let ghost init = self@;
        let ghost c0 = dice.chances();
        assert(c0.subrange(0, c0.len() as int) =~= c0);
        assert(c0.subrange(c0.len() as int, c0.len() as int) =~= Seq::<Probability>::empty());
        let mut i: usize = 0;
        while i < iterations
            invariant
                S::obeys_eq_spec(),
                i <= iterations,
                self.rule_seq() == rules,
                iterated(rules, init, i as nat, self@),
                c0.len() <= dice.chances().len(),
                dice.chances().subrange(0, c0.len() as int) == c0,
                iterated_asking(rules, init, i as nat, self@, dice.chances().subrange(c0.len() as int, dice.chances().len() as int)),
            decreases iterations - i,
        {
            let ghost cur = self@;
            let ghost cb = dice.chances();
            self.step(dice);
            proof {
                assert(steps_to(rules, cur, self@));
                assert(iterated(rules, init, (i + 1) as nat, self@));
                let ca = dice.chances();
                let whole = ca.subrange(c0.len() as int, ca.len() as int);
                let j = cb.len() - c0.len();
                assert(ca.subrange(0, c0.len() as int) =~= c0);
                assert(whole.subrange(0, j) =~= cb.subrange(c0.len() as int, cb.len() as int));
                assert(whole.subrange(j, whole.len() as int) =~= ca.subrange(cb.len() as int, ca.len() as int));
                assert(steps_asking(rules, cur, self@, whole.subrange(j, whole.len() as int)));
                assert(iterated_asking(rules, init, (i + 1) as nat, self@, whole));
            }
            i = i + 1;
        }
    }
}


// ── Laws ──

/// A context-sensitive rule rewrites a symbol only when every context it gives holds:
/// if it gives a left context that is not the nearest `Consider` symbol to the left,
/// or a right context that is not reachable to the right, it neither fires nor
/// appends anything, whatever is drawn. When the symbol is a non-terminal matching the
/// head, at least one context is given, and every given context holds, it fires with
/// its right-hand side. A rule that gives no context never fires.
pub proof fn lemma_context_rule_needs_every_context<'a, S: Symbol>(
    head: S,
    left: Option<S>,
    right: Option<S>,
    res: &'a [S],
    input: Seq<S>,
    i: int,
    draw: (bool, Seq<S>),
)
    requires
        0 <= i < input.len(),
    ensures
        ({
            let out = rule_result(Rule::ContextSensitive(head, left, right, res), input, i, draw);
            &&& (left matches Some(l) && !spec_path_left(input, i, l)) ==> out == (false, Seq::<S>::empty())
            &&& (right matches Some(r) && !spec_tree_right(input, i, r)) ==> out == (false, Seq::<S>::empty())
            &&& (left is None && right is None) ==> out == (false, Seq::<S>::empty())
            &&& !(input[i].spec_symbol_type() == SymbolType::NonTerminal && same(input[i], head)) ==> out == (
                false,
                Seq::<S>::empty(),
            )
            &&& (input[i].spec_symbol_type() == SymbolType::NonTerminal && same(input[i], head)
                && (left is Some || right is Some) && (left matches Some(l) ==> spec_path_left(input, i, l))
                && (right matches Some(r) ==> spec_tree_right(input, i, r))) ==> out == (true, res@)
        }),
{
}

/// What the other kinds of rule do with a symbol, for any outcome chance or the
/// production may give: none rewrites a terminal symbol or one its head does not
/// match. On a non-terminal matching the head, a normal rule always fires with its
/// right-hand side; a stochastic rule fires with its right-hand side exactly when its
/// coin comes up, never at probability zero and always at probability one; a parametric
/// rule reports and appends what its production did, an outcome the production allows.
pub proof fn lemma_rule_kinds<'a, S: Symbol>(rule: Rule<'a, S>, input: Seq<S>, i: int, draw: (bool, Seq<S>))
    requires
        0 <= i < input.len(),
        draw_allowed(rule, input[i], draw),
    ensures
        ({
            let sym = input[i];
            let out = rule_result(rule, input, i, draw);
            let applies = sym.spec_symbol_type() == SymbolType::NonTerminal;
            &&& !applies ==> out == (false, Seq::<S>::empty())
            &&& rule matches Rule::Normal(h, res) ==> (applies ==> out == (if same(sym, h) {
                (true, res@)
            } else {
                (false, Seq::<S>::empty())
            }))
            &&& rule matches Rule::Stochastic(h, p, res) ==> (applies ==> out == (if same(sym, h) && draw.0 {
                (true, res@)
            } else {
                (false, Seq::<S>::empty())
            }))
            &&& rule matches Rule::Stochastic(h, p, res) ==> (p.is_never() ==> !out.0)
            &&& rule matches Rule::Stochastic(h, p, res) ==> ((applies && same(sym, h) && p.is_always()) ==> out == (
                true,
                res@,
            ))
            &&& rule matches Rule::Parametric(h, f) ==> (applies ==> out == (if same(sym, h) {
                draw
            } else {
                (false, Seq::<S>::empty())
            }))
            &&& rule matches Rule::Parametric(h, f) ==> ((applies && same(sym, h)) ==> f.produces(sym, out.0, out.1))
        }),
{
}

/// The left context is read from the nearest neighbour that takes part in context
/// matching: a `Consider` symbol just left of `index` decides it, and an `Ignore`
/// symbol there is passed over.
pub proof fn lemma_left_context_neighbour<S: Symbol>(input: Seq<S>, index: int, target: S)
    requires
        1 <= index <= input.len(),
    ensures
        input[index - 1].spec_context() == ContextAction::Consider ==> (spec_path_left(input, index, target)
            == same(input[index - 1], target)),
        input[index - 1].spec_context() == ContextAction::Ignore ==> (spec_path_left(input, index, target)
            == spec_path_left(input, index - 1, target)),
{
}

/// The right context is read from the branch the symbol stands on: a `Consider` symbol
/// just right of `index` decides it, an `Ignore` symbol there is passed over, and a
/// closing bracket there ends the branch, so nothing is reachable.
pub proof fn lemma_right_context_neighbour<S: Symbol>(input: Seq<S>, index: int, target: S)
    requires
        0 <= index,
        index + 1 < input.len(),
    ensures
        input[index + 1].spec_context() == ContextAction::Consider ==> (spec_tree_right(input, index, target)
            == same(input[index + 1], target)),
        input[index + 1].spec_context() == ContextAction::Ignore ==> (spec_tree_right(input, index, target)
            == spec_tree_right(input, index + 1, target)),
        input[index + 1].spec_context() == ContextAction::BranchEnd ==> !spec_tree_right(input, index, target),
{
}

proof fn lemma_with_priority_kind<'a, S: Symbol>(rules: Seq<Rule<'a, S>>, p: u8)
    ensures
        forall|j: int| 0 <= j < with_priority(rules, p).len() ==> (#[trigger] with_priority(rules, p)[j]).spec_priority() == p,
    decreases rules.len(),
{
    if rules.len() > 0 {
        lemma_with_priority_kind(rules.drop_last(), p);
        let rest = with_priority(rules.drop_last(), p);
        assert forall|j: int| 0 <= j < with_priority(rules, p).len() implies (#[trigger] with_priority(rules, p)[j]).spec_priority() == p by {
            if j < rest.len() {
                assert(with_priority(rules, p)[j] == rest[j]);
            }
        }
    }
}

proof fn lemma_with_priority_lengths<'a, S: Symbol>(rules: Seq<Rule<'a, S>>)
    ensures
        with_priority(rules, 0).len() + with_priority(rules, 1).len() + with_priority(rules, 2).len()
            + with_priority(rules, 3).len() == rules.len(),
    decreases rules.len(),
{
    if rules.len() > 0 {
        lemma_with_priority_lengths(rules.drop_last());
    }
}

/// Sorting by priority keeps every rule and puts the kinds in the order they are tried:
/// no normal rule comes before a rule of another kind, no stochastic rule before a
/// parametric or context-sensitive one, and no parametric rule before a
/// context-sensitive one.
pub proof fn lemma_priority_order<'a, S: Symbol>(rules: Seq<Rule<'a, S>>)
    ensures
        by_priority(rules).len() == rules.len(),
        forall|i: int, j: int| 0 <= i < j < rules.len() ==> {
            let a = #[trigger] by_priority(rules)[i];
            let b = #[trigger] by_priority(rules)[j];
            &&& a is Normal ==> b is Normal
            &&& a is Stochastic ==> (b is Stochastic || b is Normal)
            &&& a is Parametric ==> !(b is ContextSensitive)
        },
{
    lemma_with_priority_lengths(rules);
    lemma_with_priority_kind(rules, 0);
    lemma_with_priority_kind(rules, 1);
    lemma_with_priority_kind(rules, 2);
    lemma_with_priority_kind(rules, 3);
    let w0 = with_priority(rules, 0);
    let w1 = with_priority(rules, 1);
    let w2 = with_priority(rules, 2);
    let w3 = with_priority(rules, 3);
    let bp = by_priority(rules);
    let l0 = w0.len() as int;
    let l1 = l0 + w1.len();
    let l2 = l1 + w2.len();
    assert forall|x: int| 0 <= x < bp.len() implies (#[trigger] bp[x]).spec_priority() == (if x < l0 {
        0u8
    } else if x < l1 {
        1u8
    } else if x < l2 {
        2u8
    } else {
        3u8
    }) by {
        if x < l0 {
            assert(bp[x] == w0[x]);
        } else if x < l1 {
            assert(bp[x] == w1[x - l0]);
        } else if x < l2 {
            assert(bp[x] == w2[x - l1]);
        } else {
            assert(bp[x] == w3[x - l2]);
        }
    }
    assert forall|i: int, j: int| 0 <= i < j < rules.len() implies {
        let a = #[trigger] bp[i];
        let b = #[trigger] bp[j];
        &&& a is Normal ==> b is Normal
        &&& a is Stochastic ==> (b is Stochastic || b is Normal)
        &&& a is Parametric ==> !(b is ContextSensitive)
    } by {
        assert(bp[i].spec_priority() <= bp[j].spec_priority());
    }
}

/// A parametric rule whose production has at most one outcome for each symbol: what it
/// reports and what it appends depend on the symbol alone (any other rule: true)
pub open spec fn functional<'a, S>(rule: Rule<'a, S>) -> bool {
    match rule {
        Rule::Parametric(_, f) => forall|sym: S, x: (bool, Seq<S>), y: (bool, Seq<S>)|
            #[trigger] f.produces(sym, x.0, x.1) && #[trigger] f.produces(sym, y.0, y.1) ==> x == y,
        _ => true,
    }
}

/// No rule is left to chance: every stochastic rule has probability zero or one, and
/// every parametric rule's production has one outcome for each symbol
pub open spec fn deterministic<'a, S: Symbol>(rules: Seq<Rule<'a, S>>) -> bool {
    forall|k: int| 0 <= k < rules.len() ==> match #[trigger] rules[k] {
        Rule::Parametric(..) => functional(rules[k]),
        Rule::Stochastic(_, p, _) => p.is_never() || p.is_always(),
        _ => true,
    }
}

proof fn lemma_functional_outcome<'a, S: Symbol>(rule: Rule<'a, S>, sym: S, a: (bool, Seq<S>), b: (bool, Seq<S>))
    requires
        rule matches Rule::Parametric(head, _) && same(sym, head),
        functional(rule),
        sym.spec_symbol_type() == SymbolType::NonTerminal,
        draw_allowed(rule, sym, a),
        draw_allowed(rule, sym, b),
    ensures
        a == b,
{
}

proof fn lemma_expand_deterministic<'a, S: Symbol>(
    rules: Seq<Rule<'a, S>>,
    input: Seq<S>,
    i: int,
    k: int,
    d1: Seq<(bool, Seq<S>)>,
    d2: Seq<(bool, Seq<S>)>,
)
    requires
        0 <= k,
        deterministic(rules),
        expand(rules, input, i, k, d1) is Some,
        expand(rules, input, i, k, d2) is Some,
    ensures
        expand(rules, input, i, k, d1) == expand(rules, input, i, k, d2),
    decreases rules.len() - k,
{
    if 0 <= k < rules.len() {
        let r = rules[k];
        assert(match r {
            Rule::Parametric(..) => functional(r),
            Rule::Stochastic(_, p, _) => p.is_never() || p.is_always(),
            _ => true,
        });
        assert(draw_allowed(r, input[i], d1[k]));
        assert(draw_allowed(r, input[i], d2[k]));
        if let Rule::Parametric(head, _) = r {
            if input[i].spec_symbol_type() == SymbolType::NonTerminal && same(input[i], head) {
                lemma_functional_outcome(r, input[i], d1[k], d2[k]);
            }
        }
        assert(rule_result(r, input, i, d1[k]) == rule_result(r, input, i, d2[k]));
        if !rule_result(r, input, i, d1[k]).0 {
            lemma_expand_deterministic(rules, input, i, k + 1, d1, d2);
        }
    }
}

proof fn lemma_rewrite_deterministic<'a, S: Symbol>(
    rules: Seq<Rule<'a, S>>,
    input: Seq<S>,
    ds1: Seq<Seq<(bool, Seq<S>)>>,
    ds2: Seq<Seq<(bool, Seq<S>)>>,
)
    requires
        deterministic(rules),
        ds1.len() == ds2.len(),
        rewrite(rules, input, ds1) is Some,
        rewrite(rules, input, ds2) is Some,
    ensures
        rewrite(rules, input, ds1) == rewrite(rules, input, ds2),
    decreases ds1.len(),
{
    if ds1.len() > 0 {
        lemma_rewrite_deterministic(rules, input, ds1.drop_last(), ds2.drop_last());
        lemma_expand_deterministic(rules, input, ds1.len() - 1, 0, ds1.last(), ds2.last());
    }
}

/// A rewriting pass of rules that leave nothing to chance has one outcome.
pub proof fn lemma_deterministic_step<'a, S: Symbol>(
    rules: Seq<Rule<'a, S>>,
    a: Seq<S>,
    b1: Seq<S>,
    b2: Seq<S>,
)
    requires
        deterministic(rules),
        steps_to(rules, a, b1),
        steps_to(rules, a, b2),
    ensures
        b1 == b2,
{
    let ds1 = choose|ds: Seq<Seq<(bool, Seq<S>)>>| ds.len() == a.len() && #[trigger] rewrite(rules, a, ds) == Some(b1);
    let ds2 = choose|ds: Seq<Seq<(bool, Seq<S>)>>| ds.len() == a.len() && #[trigger] rewrite(rules, a, ds) == Some(b2);
    lemma_rewrite_deterministic(rules, a, ds1, ds2);
}

/// `n` rewriting passes of rules that leave nothing to chance have one outcome: every
/// run of `evolve(n)` from the same string ends in the same string.
pub proof fn lemma_deterministic_evolve<'a, S: Symbol>(
    rules: Seq<Rule<'a, S>>,
    a: Seq<S>,
    n: nat,
    b1: Seq<S>,
    b2: Seq<S>,
)
    requires
        deterministic(rules),
        iterated(rules, a, n, b1),
        iterated(rules, a, n, b2),
    ensures
        b1 == b2,
    decreases n,
{
    if n > 0 {
        let m1 = choose|mid: Seq<S>| iterated(rules, a, (n - 1) as nat, mid) && #[trigger] steps_to(rules, mid, b1);
        let m2 = choose|mid: Seq<S>| iterated(rules, a, (n - 1) as nat, mid) && #[trigger] steps_to(rules, mid, b2);
        lemma_deterministic_evolve(rules, a, (n - 1) as nat, m1, m2);
        lemma_deterministic_step(rules, m1, b1, b2);
    }
}

proof fn lemma_expand_terminal<'a, S: Symbol>(
    rules: Seq<Rule<'a, S>>,
    input: Seq<S>,
    i: int,
    k: int,
    d: Seq<(bool, Seq<S>)>,
)
    requires
        0 <= k,
        0 <= i < input.len(),
        input[i].spec_symbol_type() == SymbolType::Terminal,
        expand(rules, input, i, k, d) is Some,
    ensures
        expand(rules, input, i, k, d) == Some(seq![input[i]]),
    decreases rules.len() - k,
{
    if k < rules.len() {
        lemma_expand_terminal(rules, input, i, k + 1, d);
        assert(Seq::<S>::empty() + seq![input[i]] =~= seq![input[i]]);
    }
}

/// Terminal symbols are never rewritten: whatever the rules and whatever is drawn,
/// a terminal symbol's successor is the symbol itself.
pub proof fn lemma_terminal_passes_through<'a, S: Symbol>(
    rules: Seq<Rule<'a, S>>,
    input: Seq<S>,
    i: int,
    d: Seq<(bool, Seq<S>)>,
)
    requires
        0 <= i < input.len(),
        input[i].spec_symbol_type() == SymbolType::Terminal,
        expand(rules, input, i, 0, d) is Some,
    ensures
        expand(rules, input, i, 0, d) == Some(seq![input[i]]),
{
    lemma_expand_terminal(rules, input, i, 0, d);
}

/// The symbol a rule rewrites
pub open spec fn rule_head<'a, S>(rule: Rule<'a, S>) -> S {
    match rule {
        Rule::Normal(h, _) => h,
        Rule::Stochastic(h, _, _) => h,
        Rule::Parametric(h, _) => h,
        Rule::ContextSensitive(h, _, _, _) => h,
    }
}

proof fn lemma_expand_unmatched<'a, S: Symbol>(
    rules: Seq<Rule<'a, S>>,
    input: Seq<S>,
    i: int,
    k: int,
    d: Seq<(bool, Seq<S>)>,
)
    requires
        0 <= k,
        0 <= i < input.len(),
        forall|j: int| 0 <= j < rules.len() ==> !same(input[i], rule_head(#[trigger] rules[j])),
        expand(rules, input, i, k, d) is Some,
    ensures
        expand(rules, input, i, k, d) == Some(seq![input[i]]),
    decreases rules.len() - k,
{
    if k < rules.len() {
        assert(!same(input[i], rule_head(rules[k])));
        lemma_expand_unmatched(rules, input, i, k + 1, d);
        assert(Seq::<S>::empty() + seq![input[i]] =~= seq![input[i]]);
    }
}

/// A symbol that no rule's head matches passes through unchanged.
pub proof fn lemma_unmatched_passes_through<'a, S: Symbol>(
    rules: Seq<Rule<'a, S>>,
    input: Seq<S>,
    i: int,
    d: Seq<(bool, Seq<S>)>,
)
    requires
        0 <= i < input.len(),
        forall|j: int| 0 <= j < rules.len() ==> !same(input[i], rule_head(#[trigger] rules[j])),
        expand(rules, input, i, 0, d) is Some,
    ensures
        expand(rules, input, i, 0, d) == Some(seq![input[i]]),
{
    lemma_expand_unmatched(rules, input, i, 0, d);
}

// ── Context-free rule sets ──

/// Every rule is a `Normal` rule
pub open spec fn all_normal<'a, S: Symbol>(rules: Seq<Rule<'a, S>>) -> bool {
    forall|k: int| 0 <= k < rules.len() ==> (#[trigger] rules[k]) is Normal
}

/// The right-hand side of the first of `rules` (from `k` on) whose head matches `sym`;
/// `sym` itself when none does
pub open spec fn first_match<'a, S: Symbol>(rules: Seq<Rule<'a, S>>, sym: S, k: int) -> Seq<S>
    decreases rules.len() - k,
{
    if k >= rules.len() {
        seq![sym]
    } else {
        match rules[k] {
            Rule::Normal(h, res) => if same(sym, h) {
                res@
            } else {
                first_match(rules, sym, k + 1)
            },
            _ => first_match(rules, sym, k + 1),
        }
    }
}

/// The successor of `sym` under a set of `Normal` rules
pub open spec fn successor<'a, S: Symbol>(rules: Seq<Rule<'a, S>>, sym: S) -> Seq<S> {
    if sym.spec_symbol_type() == SymbolType::NonTerminal {
        first_match(rules, sym, 0)
    } else {
        seq![sym]
    }
}

/// Replaces every symbol of `s` by its image under `f`
pub open spec fn substitute<S>(s: Seq<S>, f: spec_fn(S) -> Seq<S>) -> Seq<S>
    decreases s.len(),
{
    if s.len() == 0 {
        Seq::empty()
    } else {
        substitute(s.drop_last(), f) + f(s.last())
    }
}

/// The number of symbols of `s` that satisfy `p`
pub open spec fn count<S>(s: Seq<S>, p: spec_fn(S) -> bool) -> nat
    decreases s.len(),
{
    if s.len() == 0 {
        0
    } else {
        count(s.drop_last(), p) + if p(s.last()) { 1nat } else { 0nat }
    }
}

/// Counting over a concatenation adds the counts of its parts.
pub proof fn lemma_count_concat<S>(a: Seq<S>, b: Seq<S>, p: spec_fn(S) -> bool)
    ensures
        count(a + b, p) == count(a, p) + count(b, p),
    decreases b.len(),
{
    if b.len() == 0 {
        assert(a + b =~= a);
    } else {
        lemma_count_concat(a, b.drop_last(), p);
        assert((a + b).drop_last() =~= a + b.drop_last());
        assert((a + b).last() == b.last());
    }
}

/// `b` to the power `e`
pub open spec fn power(b: nat, e: nat) -> nat
    decreases e,
{
    if e == 0 {
        1
    } else {
        b * power(b, (e - 1) as nat)
    }
}

/// `n` substitutions by `f` applied to `s`
pub open spec fn substitute_n<S>(s: Seq<S>, f: spec_fn(S) -> Seq<S>, n: nat) -> Seq<S>
    decreases n,
{
    if n == 0 {
        s
    } else {
        substitute(substitute_n(s, f, (n - 1) as nat), f)
    }
}

/// The draws that leave every rule unfired with nothing appended
pub open spec fn quiet_draws<S>(n: nat) -> Seq<(bool, Seq<S>)> {
    Seq::new(n, |k: int| (false, Seq::<S>::empty()))
}

proof fn lemma_expand_normal<'a, S: Symbol>(
    rules: Seq<Rule<'a, S>>,
    input: Seq<S>,
    i: int,
    k: int,
    d: Seq<(bool, Seq<S>)>,
)
    requires
        all_normal(rules),
        0 <= i < input.len(),
        0 <= k <= rules.len(),
        d == quiet_draws::<S>(rules.len()),
    ensures
        expand(rules, input, i, k, d) == Some(
            if input[i].spec_symbol_type() == SymbolType::NonTerminal {
                first_match(rules, input[i], k)
            } else {
                seq![input[i]]
            },
        ),
    decreases rules.len() - k,
{
    if k < rules.len() {
        assert(rules[k] is Normal);
        lemma_expand_normal(rules, input, i, k + 1, d);
        assert(Seq::<S>::empty() + seq![input[i]] =~= seq![input[i]]);
        assert(forall|t: Seq<S>| Seq::<S>::empty() + t =~= t);
    }
}

proof fn lemma_rewrite_normal<'a, S: Symbol>(
    rules: Seq<Rule<'a, S>>,
    input: Seq<S>,
    ds: Seq<Seq<(bool, Seq<S>)>>,
)
    requires
        all_normal(rules),
        ds.len() <= input.len(),
        forall|i: int| 0 <= i < ds.len() ==> #[trigger] ds[i] == quiet_draws::<S>(rules.len()),
    ensures
        rewrite(rules, input, ds) == Some(
            substitute(input.subrange(0, ds.len() as int), |x: S| successor(rules, x)),
        ),
    decreases ds.len(),
{
    if ds.len() > 0 {
        let n = ds.len() - 1;
        lemma_rewrite_normal(rules, input, ds.drop_last());
        lemma_expand_normal(rules, input, n, 0, ds.last());
        assert(input.subrange(0, n + 1).drop_last() =~= input.subrange(0, n));
    } else {
        assert(input.subrange(0, 0) =~= Seq::<S>::empty());
    }
}

/// A set of `Normal` rules rewrites `a` in one pass by replacing each symbol by its
/// successor: the right-hand side of the first rule whose head matches it, or the
/// symbol itself (when terminal, or when no head matches).
pub proof fn lemma_normal_step<'a, S: Symbol>(rules: Seq<Rule<'a, S>>, a: Seq<S>, b: Seq<S>)
    requires
        all_normal(rules),
    ensures
        steps_to(rules, a, b) <==> b == substitute(a, |x: S| successor(rules, x)),
{
    let q = Seq::new(a.len(), |i: int| quiet_draws::<S>(rules.len()));
    lemma_rewrite_normal(rules, a, q);
    assert(a.subrange(0, a.len() as int) =~= a);
    assert(deterministic(rules)) by {
        assert forall|j: int| 0 <= j < rules.len() implies match #[trigger] rules[j] {
            Rule::Parametric(..) => functional(rules[j]),
            Rule::Stochastic(_, p, _) => p.is_never() || p.is_always(),
            _ => true,
        } by {
            assert(rules[j] is Normal);
        }
    }
    if steps_to(rules, a, b) {
        let c = substitute(a, |x: S| successor(rules, x));
        assert(rewrite(rules, a, q) == Some(c));
        assert(steps_to(rules, a, c));
        lemma_deterministic_step(rules, a, b, c);
    }
    if b == substitute(a, |x: S| successor(rules, x)) {
        assert(rewrite(rules, a, q) == Some(b));
    }
}


/// `n` passes of a set of `Normal` rules replace every symbol by its successor `n`
/// times over.
pub proof fn lemma_normal_evolve<'a, S: Symbol>(rules: Seq<Rule<'a, S>>, a: Seq<S>, n: nat, b: Seq<S>)
    requires
        all_normal(rules),
    ensures
        iterated(rules, a, n, b) <==> b == substitute_n(a, |x: S| successor(rules, x), n),
    decreases n,
{
    let f = |x: S| successor(rules, x);
    if n > 0 {
        let c = substitute_n(a, f, (n - 1) as nat);
        if iterated(rules, a, n, b) {
            let m = choose|mid: Seq<S>| iterated(rules, a, (n - 1) as nat, mid) && #[trigger] steps_to(rules, mid, b);
            lemma_normal_evolve(rules, a, (n - 1) as nat, m);
            lemma_normal_step(rules, m, b);
        }
        if b == substitute_n(a, f, n) {
            lemma_normal_evolve(rules, a, (n - 1) as nat, c);
            lemma_normal_step(rules, c, b);
            assert(steps_to(rules, c, b));
        }
    }
}


proof fn lemma_with_priority_normal<'a, S: Symbol>(rules: Seq<Rule<'a, S>>, p: u8)
    requires
        all_normal(rules),
    ensures
        with_priority(rules, p) == (if p == 3 { rules } else { Seq::empty() }),
    decreases rules.len(),
{
    if rules.len() > 0 {
        assert(rules.last() is Normal);
        lemma_with_priority_normal(rules.drop_last(), p);
        if p == 3 {
            assert(rules.drop_last().push(rules.last()) =~= rules);
        }
    } else {
        assert(rules =~= Seq::<Rule<'a, S>>::empty());
    }
}

/// Sorting a set of `Normal` rules by priority keeps their order.
pub proof fn lemma_normal_sorted<'a, S: Symbol>(rules: Seq<Rule<'a, S>>)
    requires
        all_normal(rules),
    ensures
        by_priority(rules) == rules,
{
    lemma_with_priority_normal(rules, 0);
    lemma_with_priority_normal(rules, 1);
    lemma_with_priority_normal(rules, 2);
    lemma_with_priority_normal(rules, 3);
    assert(by_priority(rules) =~= rules);
}

} // verus!
