//! The decisions `Turtle::do_actions` takes for each action: bracket depth, and the
//! cutting of a branch (by a `Cut` action, or by space pruning) up to its closing bracket.
use vstd::prelude::*;

verus! {

/// How an action takes part in bracket handling
#[derive(Debug, Clone, Copy, PartialEq, Eq, Structural)]
pub enum ActionKind {
    /// Opens a branch
    Push,
    /// Closes a branch
    Pop,
    /// Cuts the rest of the enclosing branch
    Cut,
    /// Draws a branch segment, which space pruning may find blocked
    Branch,
    /// Any other action
    Other,
}

/// What the turtle does with an action
#[derive(Debug, Clone, Copy, PartialEq, Eq, Structural)]
pub enum TurtleStep {
    /// Save the turtle state
    Push,
    /// Restore the last saved turtle state
    Pop,
    /// Carry the action out
    Perform,
    /// Ignore the action
    Skip,
}

/// The tracker's transition: from bracket depth `depth`, cutting the branch at depth
/// `cut` if any, an action of kind `kind` gives the new depth, the new cut and the step.
///
/// While cutting, brackets are only counted, and the cut ends with the `Pop` that
/// closes the branch it began in; everything else is skipped. Otherwise `Push` and
/// `Pop` are passed on (the depth never going below zero), a `Cut` inside a branch
/// starts cutting it (at depth zero it is ignored), and a `Branch` that space pruning
/// finds `blocked` likewise cuts the branch it is in.
pub open spec fn transition(depth: nat, cut: Option<nat>, kind: ActionKind, blocked: bool) -> (nat, Option<nat>, TurtleStep) {
    match cut {
        Some(cd) => match kind {
            ActionKind::Push => (depth + 1, Some(cd), TurtleStep::Skip),
            ActionKind::Pop => if depth == cd {
                ((depth - 1) as nat, None, TurtleStep::Pop)
            } else {
                ((depth - 1) as nat, Some(cd), TurtleStep::Skip)
            },
            _ => (depth, Some(cd), TurtleStep::Skip),
        },
        None => match kind {
            ActionKind::Push => (depth + 1, None, TurtleStep::Push),
            ActionKind::Pop => (if depth > 0 { (depth - 1) as nat } else { 0 }, None, TurtleStep::Pop),
            ActionKind::Cut => (depth, if depth > 0 { Some(depth) } else { None }, TurtleStep::Skip),
            ActionKind::Branch => if depth > 0 && blocked {
                (depth, Some(depth), TurtleStep::Skip)
            } else {
                (depth, None, TurtleStep::Perform)
            },
            ActionKind::Other => (depth, None, TurtleStep::Perform),
        },
    }
}

/// The depth, cut and steps after feeding `actions` (kind, blocked) one by one
pub open spec fn run(depth: nat, cut: Option<nat>, actions: Seq<(ActionKind, bool)>) -> (nat, Option<nat>, Seq<TurtleStep>)
    decreases actions.len(),
{
    if actions.len() == 0 {
        (depth, cut, Seq::empty())
    } else {
        let before = run(depth, cut, actions.drop_last());
        let after = transition(before.0, before.1, actions.last().0, actions.last().1);
        (after.0, after.1, before.2.push(after.2))
    }
}

/// `depth` plus the pushes and less the pops among `actions`
pub open spec fn net_depth(depth: int, actions: Seq<(ActionKind, bool)>) -> int
    decreases actions.len(),
{
    if actions.len() == 0 {
        depth
    } else {
        net_depth(depth, actions.drop_last()) + match actions.last().0 {
            ActionKind::Push => 1int,
            ActionKind::Pop => -1int,
            _ => 0int,
        }
    }
}

/// Bracket depth, and the depth of the branch being cut, if any
pub struct BracketTracker {
    depth: usize,
    cut_at: Option<usize>,
}

impl BracketTracker {
    #[verifier::type_invariant]
    spec fn inv(self) -> bool {
        self.cut_at matches Some(cd) ==> 1 <= cd <= self.depth
    }

    pub closed spec fn spec_depth(self) -> nat {
        self.depth as nat
    }

    pub closed spec fn spec_cut_at(self) -> Option<nat> {
        match self.cut_at {
            Some(cd) => Some(cd as nat),
            None => None,
        }
    }

    /// Outside any branch, cutting nothing
    pub fn new() -> (t: Self)
        ensures
            t.spec_depth() == 0,
            t.spec_cut_at() is None,
    {
        BracketTracker { depth: 0, cut_at: None }
    }

    pub fn depth(&self) -> (d: usize)
        ensures
            d == self.spec_depth(),
    {
        self.depth
    }

    /// Whether a branch is being cut
    pub fn is_cutting(&self) -> (c: bool)
        ensures
            c == self.spec_cut_at() is Some,
    {
        self.cut_at.is_some()
    }

    /// The step for the next action of kind `kind` (see `transition`). `blocked` tells,
    /// for a `Branch` action under space pruning, that the segment would enter space a
    /// previous plant occupies.
    pub fn next(&mut self, kind: ActionKind, blocked: bool) -> (step: TurtleStep)
        requires
            old(self).spec_depth() < usize::MAX,
        ensures
            (final(self).spec_depth(), final(self).spec_cut_at(), step) == transition(
                old(self).spec_depth(),
                old(self).spec_cut_at(),
                kind,
                blocked,
            ),
    {
        proof {
            use_type_invariant(&*self);
        }
        if let Some(cd) = self.cut_at {
            // Cutting: track bracket depth without rendering
            match kind {
                ActionKind::Push => {
                    self.depth = self.depth + 1;
                    TurtleStep::Skip
                },
                ActionKind::Pop => {
                    let step = if self.depth == cd {
                        self.cut_at = None;
                        TurtleStep::Pop
                    } else {
                        TurtleStep::Skip
                    };
                    self.depth = self.depth - 1;
                    step
                },
                _ => TurtleStep::Skip,
            }
        } else {
            match kind {
                ActionKind::Push => {
                    self.depth = self.depth + 1;
                    TurtleStep::Push
                },
                ActionKind::Pop => {
                    self.depth = if self.depth > 0 { self.depth - 1 } else { 0 };
                    TurtleStep::Pop
                },
                ActionKind::Cut => {
                    if self.depth > 0 {
                        self.cut_at = Some(self.depth);
                    }
                    TurtleStep::Skip
                },
                ActionKind::Branch => {
                    if self.depth > 0 && blocked {
                        self.cut_at = Some(self.depth);
                        TurtleStep::Skip
                    } else {
                        TurtleStep::Perform
                    }
                },
                ActionKind::Other => TurtleStep::Perform,
            }
        }
    }
}

/// While a cut lasts, every action is skipped and only the depth moves: through the
/// first `n` actions, none of them a `Pop` met at depth `cd`, the depth stays at least
/// `cd`
proof fn lemma_cut_prefix(d: nat, cd: nat, actions: Seq<(ActionKind, bool)>, n: int)
    requires
        1 <= cd <= d,
        0 <= n <= actions.len(),
        forall|j: int|
            0 <= j < n && (#[trigger] actions[j]).0 == ActionKind::Pop ==> net_depth(d as int, actions.take(j)) != cd,
    ensures
        net_depth(d as int, actions.take(n)) >= cd,
        run(d, Some(cd), actions.take(n)) == (
            net_depth(d as int, actions.take(n)) as nat,
            Some(cd),
            Seq::new(n as nat, |j: int| TurtleStep::Skip),
        ),
    decreases n,
{
    if n == 0 {
        assert(actions.take(0) =~= Seq::<(ActionKind, bool)>::empty());
        assert(Seq::new(0, |j: int| TurtleStep::Skip) =~= Seq::<TurtleStep>::empty());
    } else {
        lemma_cut_prefix(d, cd, actions, n - 1);
        assert(actions.take(n).drop_last() =~= actions.take(n - 1));
        assert(actions.take(n).last() == actions[n - 1]);
        assert(Seq::new((n - 1) as nat, |j: int| TurtleStep::Skip).push(TurtleStep::Skip) =~= Seq::new(
            n as nat,
            |j: int| TurtleStep::Skip,
        ));
    }
}

/// A cut skips everything up to the `Pop` that closes the branch it began in. From
/// depth `d`, cutting the branch at depth `cd`: when action `k` is the first `Pop` met
/// at depth `cd`, every action before it is skipped, it is carried out as a `Pop`, and
/// the tracker stops cutting, at depth `cd - 1`.
pub proof fn lemma_cut_skips_to_closing_pop(d: nat, cd: nat, actions: Seq<(ActionKind, bool)>, k: int)
    requires
        1 <= cd <= d,
        0 <= k < actions.len(),
        actions[k].0 == ActionKind::Pop,
        net_depth(d as int, actions.take(k)) == cd,
        forall|j: int|
            0 <= j < k && (#[trigger] actions[j]).0 == ActionKind::Pop ==> net_depth(d as int, actions.take(j)) != cd,
    ensures
        run(d, Some(cd), actions.take(k + 1)) == (
            (cd - 1) as nat,
            None::<nat>,
            Seq::new(k as nat, |j: int| TurtleStep::Skip).push(TurtleStep::Pop),
        ),
{
    lemma_cut_prefix(d, cd, actions, k);
    assert(actions.take(k + 1).drop_last() =~= actions.take(k));
    assert(actions.take(k + 1).last() == actions[k]);
}

/// The step an action gets when no branch is being cut: `Push` saves, `Pop` restores,
/// anything else is carried out
pub open spec fn plain_step(kind: ActionKind) -> TurtleStep {
    match kind {
        ActionKind::Push => TurtleStep::Push,
        ActionKind::Pop => TurtleStep::Pop,
        _ => TurtleStep::Perform,
    }
}

/// With no `Cut` among the actions and no branch segment blocked (space pruning off),
/// bracket tracking has no effect of its own: from any depth, cutting nothing, no cut
/// ever starts and each action gets the step it would get alone, so running the actions
/// through the tracker is carrying out each of them in turn.
pub proof fn lemma_uncut_run_performs_each(depth: nat, actions: Seq<(ActionKind, bool)>)
    requires
        forall|j: int| 0 <= j < actions.len() ==> {
            &&& (#[trigger] actions[j]).0 != ActionKind::Cut
            &&& actions[j].0 == ActionKind::Branch ==> !actions[j].1
        },
    ensures
        run(depth, None, actions).1 is None,
        run(depth, None, actions).2 == Seq::new(actions.len(), |j: int| plain_step(actions[j].0)),
    decreases actions.len(),
{
    if actions.len() > 0 {
        let init = actions.drop_last();
        assert forall|j: int| 0 <= j < init.len() implies {
            &&& (#[trigger] init[j]).0 != ActionKind::Cut
            &&& init[j].0 == ActionKind::Branch ==> !init[j].1
        } by {
            assert(init[j] == actions[j]);
        }
        lemma_uncut_run_performs_each(depth, init);
        let last = actions[actions.len() - 1];
        assert(last.0 != ActionKind::Cut);
        assert(run(depth, None, actions).2 =~= Seq::new(actions.len(), |j: int| plain_step(actions[j].0)));
    } else {
        assert(run(depth, None, actions).2 =~= Seq::new(actions.len(), |j: int| plain_step(actions[j].0)));
    }
}

/// Running two stretches of actions in turn is running them together
proof fn lemma_run_concat(d: nat, cut: Option<nat>, x: Seq<(ActionKind, bool)>, y: Seq<(ActionKind, bool)>)
    ensures
        ({
            let rx = run(d, cut, x);
            let ry = run(rx.0, rx.1, y);
            run(d, cut, x + y) == (ry.0, ry.1, rx.2 + ry.2)
        }),
    decreases y.len(),
{
    if y.len() == 0 {
        assert(x + y =~= x);
        assert(run(d, cut, x).2 + Seq::<TurtleStep>::empty() =~= run(d, cut, x).2);
    } else {
        lemma_run_concat(d, cut, x, y.drop_last());
        assert((x + y).drop_last() =~= x + y.drop_last());
        assert((x + y).last() == y.last());
        let rx = run(d, cut, x);
        let ry0 = run(rx.0, rx.1, y.drop_last());
        let t = transition(ry0.0, ry0.1, y.last().0, y.last().1);
        assert(rx.2 + ry0.2.push(t.2) =~= (rx.2 + ry0.2).push(t.2));
    }
}

/// A `Cut` inside a branch, or a branch segment that space pruning finds blocked there,
/// cuts that branch and no other: from depth `d >= 1`, cutting nothing, such an action
/// followed by `rest` skips it and every action up to the first `Pop` that closes the
/// branch it stands in (the first `Pop` of `rest` met at depth `d`, action `k`),
/// carries that `Pop` out, and leaves the tracker cutting nothing at depth `d - 1`,
/// where the enclosing branch goes on.
pub proof fn lemma_cut_ends_with_its_branch(d: nat, first: (ActionKind, bool), rest: Seq<(ActionKind, bool)>, k: int)
    requires
        1 <= d,
        first.0 == ActionKind::Cut || (first.0 == ActionKind::Branch && first.1),
        0 <= k < rest.len(),
        rest[k].0 == ActionKind::Pop,
        net_depth(d as int, rest.take(k)) == d,
        forall|j: int|
            0 <= j < k && (#[trigger] rest[j]).0 == ActionKind::Pop ==> net_depth(d as int, rest.take(j)) != d,
    ensures
        run(d, None, seq![first] + rest.take(k + 1)) == (
            (d - 1) as nat,
            None::<nat>,
            Seq::new((k + 1) as nat, |j: int| TurtleStep::Skip).push(TurtleStep::Pop),
        ),
{
    let c = seq![first];
    lemma_run_concat(d, None, c, rest.take(k + 1));
    assert(c.drop_last() =~= Seq::<(ActionKind, bool)>::empty());
    assert(run(d, None, c.drop_last()) == (d, None::<nat>, Seq::<TurtleStep>::empty()));
    assert(c.last() == first);
    assert(Seq::<TurtleStep>::empty().push(TurtleStep::Skip) =~= seq![TurtleStep::Skip]);
    assert(run(d, None, c) == (d, Some(d), seq![TurtleStep::Skip]));
    lemma_cut_skips_to_closing_pop(d, d, rest, k);
    assert(seq![TurtleStep::Skip] + Seq::new(k as nat, |j: int| TurtleStep::Skip).push(TurtleStep::Pop) =~= Seq::new(
        (k + 1) as nat,
        |j: int| TurtleStep::Skip,
    ).push(TurtleStep::Pop));
}

} // verus!
