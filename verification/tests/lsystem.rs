use comp3931::dice::SeededDice;
use comp3931::lsystem::{ContextAction, Dice, LSystem, Probability, Produced, Production, Rule, Symbol, SymbolType};

// Symbol properties:
//   A          NonTerminal  Consider     — visible as context, can be rewritten
//   B, C       NonTerminal  Ignore       — can be rewritten, invisible to context search
//   D          Terminal     Consider     — visible as context, passes through unrewritten
//   E          Terminal     Ignore       — passes through unrewritten, invisible to context
//   F(u32)     NonTerminal  Consider     — parametric, visible as context (discriminant match)
//   G(u32)     NonTerminal  Ignore       — parametric, invisible to context search
//   Push / Pop Terminal     BranchStart / BranchEnd — delimit branches

#[derive(Debug, Copy, Clone)]
enum TestSymbols {
    A,
    B,
    C,
    D,
    E,
    F(u32),
    G(u32),
    Push,
    Pop,
}

impl TestSymbols {
    fn label(&self) -> String {
        match self {
            Self::A => "A".to_string(),
            Self::B => "B".to_string(),
            Self::C => "C".to_string(),
            Self::D => "D".to_string(),
            Self::E => "E".to_string(),
            Self::F(x) => format!("F({x})"),
            Self::G(x) => format!("G({x})"),
            Self::Push => "[".to_string(),
            Self::Pop => "]".to_string(),
        }
    }
}

impl PartialEq for TestSymbols {
    fn eq(&self, other: &Self) -> bool {
        std::mem::discriminant(self) == std::mem::discriminant(other)
    }
}

impl Symbol for TestSymbols {
    fn spec_symbol_type(&self) -> SymbolType {
        self.symbol_type()
    }

    fn spec_context(&self) -> ContextAction {
        self.context()
    }

    fn symbol_type(&self) -> SymbolType {
        match self {
            Self::D | Self::E | Self::Pop | Self::Push => SymbolType::Terminal,
            _ => SymbolType::NonTerminal,
        }
    }

    fn context(&self) -> ContextAction {
        match self {
            Self::A | Self::D | Self::F(_) => ContextAction::Consider,
            Self::Push => ContextAction::BranchStart,
            Self::Pop => ContextAction::BranchEnd,
            _ => ContextAction::Ignore,
        }
    }
}

/// A parametric production given as a closure
struct Closure<'f>(&'f dyn Fn(&TestSymbols, &mut Vec<TestSymbols>) -> bool);

impl Production<TestSymbols> for Closure<'_> {
    /// A closure comes with no statement of its outcomes, so every outcome is admitted
    fn produces(&self, _symbol: TestSymbols, _fired: bool, _added: Produced<TestSymbols>) -> bool {
        true
    }

    fn produce(&self, symbol: &TestSymbols, out: &mut Vec<TestSymbols>) -> bool {
        (self.0)(symbol, out)
    }
}

use TestSymbols::{Pop, Push, A, B, C, D, E, F, G};

fn ts_str(syms: &[TestSymbols]) -> String {
    syms.iter()
        .map(|s| s.label())
        .collect::<Vec<_>>()
        .join("")
}

fn dice() -> SeededDice {
    SeededDice::new(0)
}

fn prob(p: u32, q: u32) -> Probability {
    Probability::ratio(p, q).unwrap()
}

// ── Normal rules ──

/// Classic algae growth
#[test]
fn algae() {
    let mut d = dice();
    let mut ls = LSystem::new(&[A], vec![Rule::Normal(A, &[A, B]), Rule::Normal(B, &[A])]);
    let expected = ["A", "AB", "ABA", "ABAAB", "ABAABABA"];
    for exp in expected {
        assert_eq!(ts_str(ls.current()), exp);
        ls.step(&mut d);
    }
}

/// Terminal symbols are never rewritten and pass through unchanged
#[test]
fn terminal_passes_through() {
    let mut ls = LSystem::new(&[A, D, B], vec![
        Rule::Normal(A, &[A, B]),
        Rule::Normal(B, &[A]),
    ]);
    ls.step(&mut dice());
    assert_eq!(ts_str(ls.current()), "ABDA");
}

/// A NonTerminal with no matching rule passes through unrewritten
#[test]
fn nonterminal_without_rule_passes_through() {
    let mut ls = LSystem::new(&[A, C], vec![Rule::Normal(A, &[B])]);
    ls.step(&mut dice());
    assert_eq!(ts_str(ls.current()), "BC");
}

// ── Stochastic rules ──

#[test]
fn stochastic_always_fires_at_prob_1() {
    let mut ls = LSystem::new(&[A], vec![Rule::Stochastic(A, prob(1, 1), &[B])]);
    ls.step(&mut dice());
    assert_eq!(ls.current(), &[B]);
}

#[test]
fn stochastic_never_fires_at_prob_0() {
    let mut ls = LSystem::new(&[A], vec![Rule::Stochastic(A, prob(0, 1), &[B])]);
    ls.step(&mut dice());
    assert_eq!(ls.current(), &[A]);
}

/// When the stochastic rule misses a lower-priority Normal rule fires instead
#[test]
fn stochastic_falls_back_to_normal() {
    let mut ls = LSystem::new(&[A], vec![
        Rule::Stochastic(A, prob(0, 1), &[C]),
        Rule::Normal(A, &[B]),
    ]);
    ls.step(&mut dice());
    assert_eq!(ls.current(), &[B]);
}

/// A stochastic rule asks the dice with its own chance, once for each symbol it is
/// tried on: the pass follows the draws that dice with the same seed give for 3/10
#[test]
fn stochastic_rule_draws_with_its_own_chance() {
    let p = prob(3, 10);
    let input = [A; 200];
    let mut ls = LSystem::new(&input, vec![Rule::Stochastic(A, p, &[B])]);
    ls.step(&mut SeededDice::new(7));
    let mut same = SeededDice::new(7);
    let expected: Vec<TestSymbols> = (0..200).map(|_| if same.roll(p) { B } else { A }).collect();
    assert_eq!(ts_str(ls.current()), ts_str(&expected));
    let fired = ls.current().iter().filter(|s| s.label() == "B").count();
    assert!(20 < fired && fired < 100, "{fired} of 200 fired");
}

/// A terminal symbol, or one the head does not match, asks the dice nothing
#[test]
fn stochastic_rule_draws_only_for_its_head() {
    let p = prob(1, 2);
    let mut ls = LSystem::new(&[D, C, A, E, A], vec![Rule::Stochastic(A, p, &[B])]);
    ls.step(&mut SeededDice::new(3));
    let mut same = SeededDice::new(3);
    let first = if same.roll(p) { "B" } else { "A" };
    let second = if same.roll(p) { "B" } else { "A" };
    assert_eq!(ts_str(ls.current()), format!("DC{first}E{second}"));
}

// ── Context-sensitive rules: basic left / right matching ──

/// Both left and right contexts present and matching
#[test]
fn context_left_and_right_match() {
    let mut ls = LSystem::new(&[A, B, A], vec![Rule::ContextSensitive(
        B,
        Some(A),
        Some(A),
        &[C],
    )]);
    ls.step(&mut dice());
    assert_eq!(ts_str(ls.current()), "ACA");
}

/// Left context only: fires when left neighbour matches
#[test]
fn context_left_only() {
    let mut ls = LSystem::new(&[A, B], vec![Rule::ContextSensitive(B, Some(A), None, &[
        C,
    ])]);
    ls.step(&mut dice());
    assert_eq!(ts_str(ls.current()), "AC");
}

/// Right context only: fires when right neighbour matches
#[test]
fn context_right_only() {
    let mut ls = LSystem::new(&[B, A], vec![Rule::ContextSensitive(B, None, Some(A), &[
        C,
    ])]);
    ls.step(&mut dice());
    assert_eq!(ts_str(ls.current()), "CA");
}

/// A different Consider symbol on the left prevents the rule from firing
#[test]
fn context_no_match_wrong_left() {
    let mut ls = LSystem::new(&[D, B, A], vec![Rule::ContextSensitive(
        B,
        Some(A),
        None,
        &[C],
    )]);
    ls.step(&mut dice());
    assert_eq!(ts_str(ls.current()), "DBA");
}

/// A non-matching Consider symbol at depth 0 on the right terminates the search
#[test]
fn context_no_match_wrong_right() {
    let mut ls = LSystem::new(&[A, B, D], vec![Rule::ContextSensitive(
        B,
        None,
        Some(A),
        &[C],
    )]);
    ls.step(&mut dice());
    assert_eq!(ts_str(ls.current()), "ABD");
}

#[test]
fn context_no_match_at_left_edge() {
    let mut ls = LSystem::new(&[B, A], vec![Rule::ContextSensitive(B, Some(A), None, &[
        C,
    ])]);
    ls.step(&mut dice());
    assert_eq!(ts_str(ls.current()), "BA");
}

// ── Context-sensitive rules: Ignore symbols and branch traversal ──

/// Symbols with ContextAction::Ignore are transparent to path_left
#[test]
fn context_left_skips_ignored_symbols() {
    let mut ls = LSystem::new(&[A, E, B, A], vec![Rule::ContextSensitive(
        B,
        Some(A),
        Some(A),
        &[C],
    )]);
    ls.step(&mut dice());
    assert_eq!(ts_str(ls.current()), "AECA");
}

/// path_left skips over entire bracketed sub-expressions when walking towards the root
#[test]
fn context_left_skips_branches() {
    let mut ls = LSystem::new(&[A, Push, D, Pop, B, A], vec![Rule::ContextSensitive(
        B,
        Some(A),
        Some(A),
        &[C],
    )]);
    ls.step(&mut dice());
    assert_eq!(ts_str(ls.current()), "A[D]CA");
}

/// tree_right finds a Consider symbol even when it is inside a bracketed branch
#[test]
fn context_right_finds_symbol_in_branch() {
    // A B [A]: A inside the branch satisfies the right context.
    let mut ls = LSystem::new(&[A, B, Push, A, Pop], vec![Rule::ContextSensitive(
        B,
        Some(A),
        Some(A),
        &[C],
    )]);
    ls.step(&mut dice());
    assert_eq!(ts_str(ls.current()), "AC[A]");
}

/// tree_right searches all sibling branches
#[test]
fn context_right_searches_multiple_branches() {
    let mut ls = LSystem::new(&[B, Push, D, Pop, Push, A, Pop], vec![
        Rule::ContextSensitive(B, None, Some(A), &[C]),
    ]);
    ls.step(&mut dice());
    assert_eq!(ts_str(ls.current()), "C[D][A]");
}

#[test]
fn context_right_nested_branch_skipped_after_mismatch() {
    let mut ls = LSystem::new(&[B, Push, D, Push, A, Pop, Pop], vec![
        Rule::ContextSensitive(B, None, Some(A), &[C]),
    ]);
    ls.step(&mut dice());
    assert_eq!(ts_str(ls.current()), "B[D[A]]");
}

// ── Parametric rules ──

/// Parametric rule receives the symbol's inline value and can base its production on it
#[test]
fn parametric_reads_inline_value() {
    let mut d = dice();
    let mut ls = LSystem::new(&[F(0)], vec![Rule::Parametric(F(0), &Closure(&|s: &TestSymbols,
                                                                              out: &mut Vec<
        TestSymbols,
    >| {
        if let &F(n) = s {
            out.push(F(n + 1));
            true
        } else {
            false
        }
    }))]);
    ls.step(&mut d);
    assert_eq!(ls.current(), &[F(1)]);
    ls.step(&mut d);
    assert_eq!(ls.current(), &[F(2)]);
}

/// When no condition in a Parametric rule matches, the symbol passes through
#[test]
fn parametric_conditional_countdown() {
    let mut d = dice();
    let mut ls = LSystem::new(&[F(3)], vec![Rule::Parametric(F(0), &Closure(&|s: &TestSymbols,
                                                                              out: &mut Vec<
        TestSymbols,
    >| {
        match s {
            &F(n) if n > 0 => {
                out.push(F(n - 1));
                true
            }
            _ => false,
        }
    }))]);
    ls.step(&mut d);
    assert_eq!(ls.current(), &[F(2)]);
    ls.step(&mut d);
    assert_eq!(ls.current(), &[F(1)]);
    ls.step(&mut d);
    assert_eq!(ls.current(), &[F(0)]);
    ls.step(&mut d);
    assert_eq!(ls.current(), &[F(0)]);
}

#[test]
fn parametric_context_matches_by_discriminant() {
    let mut ls = LSystem::new(&[F(5), A], vec![Rule::ContextSensitive(
        A,
        Some(F(0)),
        None,
        &[B],
    )]);
    ls.step(&mut dice());
    assert_eq!(ts_str(ls.current()), "F(5)B");
}

#[test]
fn parametric_ignored_symbol_does_not_satisfy_context() {
    let mut ls = LSystem::new(&[G(3), A], vec![Rule::ContextSensitive(
        A,
        Some(F(0)),
        None,
        &[B],
    )]);
    ls.step(&mut dice());
    assert_eq!(ts_str(ls.current()), "G(3)A");
}

// ── Rule priority ──

/// ContextSensitive beats Normal when the context is satisfied
#[test]
fn context_sensitive_has_priority_over_normal() {
    let mut ls = LSystem::new(&[A, B, A], vec![
        Rule::Normal(B, &[E]),
        Rule::ContextSensitive(B, Some(A), Some(A), &[C]),
    ]);
    ls.step(&mut dice());
    assert_eq!(ts_str(ls.current()), "ACA");
}

/// ContextSensitive beats Parametric when the context is satisfied
#[test]
fn context_sensitive_has_priority_over_parametric() {
    let mut ls = LSystem::new(&[A, B], vec![
        Rule::Parametric(B, &Closure(&|_: &TestSymbols, out: &mut Vec<TestSymbols>| {
            out.push(E);
            true
        })),
        Rule::ContextSensitive(B, Some(A), None, &[C]),
    ]);
    ls.step(&mut dice());
    assert_eq!(ts_str(ls.current()), "AC");
}

/// ContextSensitive beats Stochastic when the context is satisfied
#[test]
fn context_sensitive_has_priority_over_stochastic() {
    let mut ls = LSystem::new(&[A, B, A], vec![
        Rule::Stochastic(B, prob(1, 1), &[E]),
        Rule::ContextSensitive(B, Some(A), Some(A), &[C]),
    ]);
    ls.step(&mut dice());
    assert_eq!(ts_str(ls.current()), "ACA");
}

/// When context is not satisfied, a lower-priority Normal rule triggers
#[test]
fn normal_fallback_when_context_unmatched() {
    let mut ls = LSystem::new(&[D, B], vec![
        Rule::Normal(B, &[E]),
        Rule::ContextSensitive(B, Some(A), None, &[C]),
    ]);
    ls.step(&mut dice());
    assert_eq!(ts_str(ls.current()), "DE");
}

// ── evolve / step ──

/// evolve(0) leaves the initial state unchanged
#[test]
fn evolve_zero_steps_unchanged() {
    let mut ls = LSystem::new(&[A, B, A], vec![
        Rule::Normal(A, &[B]),
        Rule::Normal(B, &[A]),
    ]);
    ls.evolve(0, &mut dice());
    assert_eq!(ts_str(ls.current()), "ABA");
}

/// evolve(n) produces the same state as n sequential calls to step()
#[test]
fn evolve_matches_repeated_step() {
    let make = || LSystem::new(&[A], vec![Rule::Normal(A, &[A, B]), Rule::Normal(B, &[A])]);
    let mut by_step = make();
    let mut d = dice();
    for _ in 0..5 {
        by_step.step(&mut d);
    }
    let mut by_evolve = make();
    by_evolve.evolve(5, &mut dice());
    assert_eq!(by_step.current(), by_evolve.current());
}

/// A parametric production whose outcome depends on the symbol alone evolves two equal
/// systems alike
#[test]
fn parametric_evolve_is_repeatable() {
    let grow = |s: &TestSymbols, out: &mut Vec<TestSymbols>| match s {
        &F(n) if n % 2 == 0 => {
            out.push(F(n + 1));
            out.push(G(n));
            true
        }
        &F(n) => {
            out.push(F(n + 1));
            true
        }
        _ => false,
    };
    let production = Closure(&grow);
    let make = || LSystem::new(&[F(0), A, F(5)], vec![
        Rule::Parametric(F(0), &production),
        Rule::Normal(G(0), &[A]),
    ]);
    let mut a = make();
    a.evolve(4, &mut dice());
    let mut b = make();
    for _ in 0..4 {
        b.step(&mut dice());
    }
    assert_eq!(a.current(), b.current());
    assert_eq!(ts_str(a.current()), "F(4)AAAF(9)G(8)A");
}

/// A right-context search ends at the closing bracket of the branch it started on:
/// what follows that bracket is not reachable
#[test]
fn context_right_stops_at_closing_bracket() {
    right_context_check(&[Push, B, Pop, A], "[B]A");
    right_context_check(&[B, Pop, A], "B]A");
    right_context_check(&[B, Push, Pop, A], "C[]A");
    right_context_check(&[B, A, Pop], "CA]");
    right_context_check(&[B, Push, A, Pop], "C[A]");
}

fn right_context_check(input: &[TestSymbols], expected: &str) {
    let mut ls = LSystem::new(input, vec![Rule::ContextSensitive(B, None, Some(A), &[C])]);
    ls.step(&mut dice());
    assert_eq!(ts_str(ls.current()), expected, "{}", ts_str(input));
}

/// Evolution runs every pass, also where a right-context search meets a closing bracket
#[test]
fn evolve_runs_every_pass_past_closing_brackets() {
    let mut ls = LSystem::new(&[B, Pop, A], vec![
        Rule::ContextSensitive(B, None, Some(A), &[C]),
        Rule::Normal(A, &[A, A]),
    ]);
    ls.evolve(3, &mut dice());
    assert_eq!(ts_str(ls.current()), "B]AAAAAAAA");
}
