//! Which plants of a generated community survive: self-thinning removes the smaller
//! plant of every overlapping pair, and succession lets the more shade-tolerant plant
//! of an overlapping pair win.
//!
//! Plants are numbered `0..n`. What the plants' positions and sizes say of a pair is
//! handed over as a table `t` of `n` rows of `n` entries, read as `t[i][j]` for `i < j`.
use vstd::prelude::*;

use crate::lsystem::{Dice, Probability};

verus! {

/// `t` has a row of `n` entries for each of `n` plants
pub open spec fn is_pair_table(t: Seq<Vec<bool>>, n: int) -> bool {
    t.len() == n && forall|i: int| 0 <= i < n ==> #[trigger] t[i]@.len() == n
}

/// Plants `k` and `m` overlap: the table entry read with the smaller index first
pub open spec fn overlapping(overlap: Seq<Vec<bool>>, k: int, m: int) -> bool {
    if k < m {
        overlap[k]@[m]
    } else if m < k {
        overlap[m]@[k]
    } else {
        false
    }
}

/// In self-thinning, plant `k` gives way to plant `m`: they overlap and `k` is not
/// the larger (`smaller[i][j]`: plant `i`'s radius is at most plant `j`'s)
pub open spec fn yields_to(overlap: Seq<Vec<bool>>, smaller: Seq<Vec<bool>>, k: int, m: int) -> bool {
    &&& overlapping(overlap, k, m)
    &&& if k < m {
        smaller[k]@[m]
    } else {
        !smaller[m]@[k]
    }
}

/// Plant `k` gave way to some plant in self-thinning
pub open spec fn gave_way(overlap: Seq<Vec<bool>>, smaller: Seq<Vec<bool>>, k: int) -> bool {
    exists|m: int| 0 <= m < overlap.len() && yields_to(overlap, smaller, k, m)
}

/// In succession, plant `k` may lose to plant `m`: they overlap and `k` is no more
/// shade-tolerant than `m`
pub open spec fn outcompeted(overlap: Seq<Vec<bool>>, tolerance: Seq<u32>, k: int, m: int) -> bool {
    overlapping(overlap, k, m) && tolerance[k] <= tolerance[m]
}

/// Strictly increasing plant numbers
pub open spec fn increasing(s: Seq<usize>) -> bool {
    forall|a: int, b: int| 0 <= a < b < s.len() ==> s[a] < s[b]
}

/// Every plant number in `s` is below `n`
pub open spec fn all_below(s: Seq<usize>, n: int) -> bool {
    forall|a: int| 0 <= a < s.len() ==> s[a] < n
}

/// No two of the plants `kept` overlap
pub open spec fn pairwise_clear(overlap: Seq<Vec<bool>>, kept: Seq<usize>) -> bool {
    forall|a: int, b: int| 0 <= a < b < kept.len() ==> !overlapping(overlap, kept[a] as int, kept[b] as int)
}

/// Every overlapping pair among the plants `cur` has a marked member
pub open spec fn marks_cover(overlap: Seq<Vec<bool>>, cur: Seq<usize>, marks: Seq<bool>) -> bool {
    forall|a: int, b: int|
        0 <= a < b < cur.len() && #[trigger] overlapping(overlap, cur[a] as int, cur[b] as int) ==> marks[a] || marks[b]
}

/// The marks left by one pass over the pairs of `n` plants from pair `(i, j)` on, the
/// pairs taken in the order (0, 1), (0, 2), .., (0, n - 1), (1, 2), ..: where neither of
/// a pair is marked yet and `meets(i, j)`, the first is marked when `first_loses(i, j)`,
/// the second otherwise
pub open spec fn pair_pass(
    m: Seq<bool>,
    n: int,
    i: int,
    j: int,
    meets: spec_fn(int, int) -> bool,
    first_loses: spec_fn(int, int) -> bool,
) -> Seq<bool>
    decreases n - i, n - j,
{
    if i >= n {
        m
    } else if j >= n {
        pair_pass(m, n, i + 1, i + 2, meets, first_loses)
    } else {
        let next = if !m[i] && !m[j] && meets(i, j) {
            if first_loses(i, j) {
                m.update(i, true)
            } else {
                m.update(j, true)
            }
        } else {
            m
        };
        pair_pass(next, n, i, j + 1, meets, first_loses)
    }
}

/// `n` unset marks
pub open spec fn no_marks(n: nat) -> Seq<bool> {
    Seq::new(n, |k: int| false)
}

/// The plant numbers `0..n`
pub open spec fn all_plants(n: nat) -> Seq<usize> {
    Seq::new(n, |k: int| k as usize)
}

/// Table `t` read for plants `a` and `b`
pub open spec fn read(t: Seq<Vec<bool>>) -> spec_fn(int, int) -> bool {
    |a: int, b: int| t[a]@[b]
}

/// Table `t` read for the `a`-th and `b`-th of the plants `cur`
pub open spec fn read_through(t: Seq<Vec<bool>>, cur: Seq<usize>) -> spec_fn(int, int) -> bool {
    |a: int, b: int| t[cur[a] as int]@[cur[b] as int]
}

/// One self-thinning pass over the plants `cur`: the smaller of an overlapping pair
/// gives way (the first on a tie)
pub open spec fn thinning_pass(overlap: Seq<Vec<bool>>, smaller: Seq<Vec<bool>>, cur: Seq<usize>) -> Seq<bool> {
    pair_pass(no_marks(cur.len()), cur.len() as int, 0, 1, read_through(overlap, cur), read_through(smaller, cur))
}

/// The entries of `cur` whose mark is unset, in order
pub open spec fn unmarked_of(cur: Seq<usize>, marks: Seq<bool>) -> Seq<usize>
    decreases cur.len(),
{
    if cur.len() == 0 {
        Seq::empty()
    } else {
        let rest = unmarked_of(cur.drop_last(), marks);
        if marks[cur.len() - 1] {
            rest
        } else {
            rest.push(cur.last())
        }
    }
}

/// The survivors of self-thinning: the plants left unmarked by one pass over all of them
pub open spec fn thinning_survivors(overlap: Seq<Vec<bool>>, smaller: Seq<Vec<bool>>) -> Seq<usize> {
    let all = all_plants(overlap.len());
    unmarked_of(all, thinning_pass(overlap, smaller, all))
}

/// In competition the first of a pair loses when it is less shade-tolerant, or equally
/// tolerant and `coin` comes up for the pair
pub open spec fn loses_by_tolerance(tolerance: Seq<u32>, coin: spec_fn(int, int) -> bool) -> spec_fn(int, int) -> bool {
    |a: int, b: int| tolerance[a] < tolerance[b] || (tolerance[a] == tolerance[b] && coin(a, b))
}

/// One competition pass over all plants, the coin of each tied pair given by `coin`
pub open spec fn competition_pass(overlap: Seq<Vec<bool>>, tolerance: Seq<u32>, coin: spec_fn(int, int) -> bool) -> Seq<bool> {
    pair_pass(
        no_marks(tolerance.len()),
        tolerance.len() as int,
        0,
        1,
        read(overlap),
        loses_by_tolerance(tolerance, coin),
    )
}

/// The coins a competition pass tosses from pair `(i, j)` on, from the marks `m`: one
/// for each pair it reaches that overlaps, has neither member marked yet, and is tied
/// in shade tolerance
pub open spec fn tie_tosses(
    m: Seq<bool>,
    n: int,
    i: int,
    j: int,
    meets: spec_fn(int, int) -> bool,
    tolerance: Seq<u32>,
    coin: spec_fn(int, int) -> bool,
) -> nat
    decreases n - i, n - j,
{
    if i >= n {
        0
    } else if j >= n {
        tie_tosses(m, n, i + 1, i + 2, meets, tolerance, coin)
    } else {
        let contest = !m[i] && !m[j] && meets(i, j);
        let next = if contest {
            if loses_by_tolerance(tolerance, coin)(i, j) {
                m.update(i, true)
            } else {
                m.update(j, true)
            }
        } else {
            m
        };
        (if contest && tolerance[i] == tolerance[j] { 1nat } else { 0nat }) + tie_tosses(next, n, i, j + 1, meets, tolerance, coin)
    }
}

/// The coins one competition pass over all plants tosses, the coin of each tied pair
/// given by `coin`
pub open spec fn competition_tosses(overlap: Seq<Vec<bool>>, tolerance: Seq<u32>, coin: spec_fn(int, int) -> bool) -> nat {
    tie_tosses(no_marks(tolerance.len()), tolerance.len() as int, 0, 1, read(overlap), tolerance, coin)
}

/// `coin` gives the recorded draw of every pair in `draws`
pub open spec fn agrees(coin: spec_fn(int, int) -> bool, draws: Map<(int, int), bool>) -> bool {
    forall|p: (int, int)| #[trigger] draws.dom().contains(p) ==> coin(p.0, p.1) == draws[p]
}

/// One self-thinning pass over the plants `cur`: each pair in turn, where neither is
/// marked yet and they overlap, marks the smaller (the first on a tie)
fn thinning_marks(overlap: &Vec<Vec<bool>>, smaller: &Vec<Vec<bool>>, cur: &Vec<usize>) -> (marks: Vec<bool>)
    requires
        is_pair_table(overlap@, overlap.len() as int),
        is_pair_table(smaller@, overlap.len() as int),
        increasing(cur@),
        all_below(cur@, overlap.len() as int),
    ensures
        marks.len() == cur.len(),
        marks@ == thinning_pass(overlap@, smaller@, cur@),
        marks_cover(overlap@, cur@, marks@),
        forall|a: int|
            0 <= a < cur.len() && #[trigger] marks@[a] ==> exists|b: int|
                0 <= b < cur.len() && yields_to(overlap@, smaller@, cur@[a] as int, cur@[b] as int),
{
    let n = cur.len();
    let mut marks: Vec<bool> = Vec::new();
    let mut k: usize = 0;
    while k < n
        invariant
            k <= n,
            marks.len() == k,
            forall|a: int| 0 <= a < k ==> !marks@[a],
        decreases n - k,
    {
        marks.push(false);
        k = k + 1;
    }
    let ghost meets = read_through(overlap@, cur@);
    let ghost first_loses = read_through(smaller@, cur@);
    assert(marks@ =~= no_marks(n as nat));
    let mut i: usize = 0;
    while i < n
        invariant
            n == cur.len(),
            is_pair_table(overlap@, overlap.len() as int),
            is_pair_table(smaller@, overlap.len() as int),
            increasing(cur@),
            all_below(cur@, overlap.len() as int),
            i <= n,
            marks.len() == n,
            meets == read_through(overlap@, cur@),
            first_loses == read_through(smaller@, cur@),
            thinning_pass(overlap@, smaller@, cur@) == pair_pass(marks@, n as int, i as int, i + 1, meets, first_loses),
            forall|a: int, b: int|
                0 <= a < i && a < b < n && #[trigger] overlapping(overlap@, cur@[a] as int, cur@[b] as int)
                    ==> marks@[a] || marks@[b],
            forall|a: int|
                0 <= a < n && #[trigger] marks@[a] ==> exists|b: int|
                    0 <= b < n && yields_to(overlap@, smaller@, cur@[a] as int, cur@[b] as int),
        decreases n - i,
    {
        let mut j: usize = i + 1;
        while j < n
            invariant
                n == cur.len(),
                is_pair_table(overlap@, overlap.len() as int),
                is_pair_table(smaller@, overlap.len() as int),
                increasing(cur@),
                all_below(cur@, overlap.len() as int),
                i < n,
                i + 1 <= j <= n,
                marks.len() == n,
                meets == read_through(overlap@, cur@),
                first_loses == read_through(smaller@, cur@),
                thinning_pass(overlap@, smaller@, cur@) == pair_pass(marks@, n as int, i as int, j as int, meets, first_loses),
                forall|a: int, b: int|
                    0 <= a < i && a < b < n && #[trigger] overlapping(overlap@, cur@[a] as int, cur@[b] as int)
                        ==> marks@[a] || marks@[b],
                forall|b: int|
                    i < b < j && #[trigger] overlapping(overlap@, cur@[i as int] as int, cur@[b] as int)
                        ==> marks@[i as int] || marks@[b],
                forall|a: int|
                    0 <= a < n && #[trigger] marks@[a] ==> exists|b: int|
                        0 <= b < n && yields_to(overlap@, smaller@, cur@[a] as int, cur@[b] as int),
            decreases n - j,
        {
            let ghost m0 = marks@;
            if !marks[i] && !marks[j] {
                let ci = cur[i];
                let cj = cur[j];
                if overlap[ci][cj] {
                    let ghost before = marks@;
                    if smaller[ci][cj] {
                        marks.set(i, true);
                        assert(yields_to(overlap@, smaller@, cur@[i as int] as int, cur@[j as int] as int));
                    } else {
                        marks.set(j, true);
                        assert(yields_to(overlap@, smaller@, cur@[j as int] as int, cur@[i as int] as int));
                    }
                    assert forall|a: int|
                        0 <= a < n && #[trigger] marks@[a] implies exists|b: int|
                            0 <= b < n && yields_to(overlap@, smaller@, cur@[a] as int, cur@[b] as int) by {
                        if a != i && a != j {
                            assert(before[a]);
                        }
                    }
                }
            }
            proof {
                assert(meets(i as int, j as int) == overlap@[cur@[i as int] as int]@[cur@[j as int] as int]);
                assert(first_loses(i as int, j as int) == smaller@[cur@[i as int] as int]@[cur@[j as int] as int]);
                assert(pair_pass(m0, n as int, i as int, j as int, meets, first_loses) == pair_pass(
                    marks@,
                    n as int,
                    i as int,
                    j + 1,
                    meets,
                    first_loses,
                ));
            }
            j = j + 1;
        }
        i = i + 1;
    }
    marks
}

/// Whether any entry is marked
fn any_marked(marks: &Vec<bool>) -> (r: bool)
    ensures
        r == exists|a: int| 0 <= a < marks.len() && marks@[a],
{
    let mut i: usize = 0;
    while i < marks.len()
        invariant
            i <= marks.len(),
            forall|a: int| 0 <= a < i ==> !marks@[a],
        decreases marks.len() - i,
    {
        if marks[i] {
            return true;
        }
        i = i + 1;
    }
    false
}

/// `x` is an entry of `cur` whose mark is unset
pub open spec fn unmarked_entry(cur: Seq<usize>, marks: Seq<bool>, x: usize) -> bool {
    exists|a: int| 0 <= a < cur.len() && !marks[a] && cur[a] == x
}

/// The plants of `cur` whose entry in `marks` is unset, in the order of `cur`
pub fn keep_unmarked(cur: &Vec<usize>, marks: &Vec<bool>) -> (kept: Vec<usize>)
    requires
        marks.len() == cur.len(),
    ensures
        kept@ == unmarked_of(cur@, marks@),
        forall|p: int| 0 <= p < kept.len() ==> #[trigger] unmarked_entry(cur@, marks@, kept@[p]),
        forall|a: int| 0 <= a < cur.len() && !marks@[a] ==> kept@.contains(#[trigger] cur@[a]),
        increasing(cur@) ==> increasing(kept@),
        kept.len() <= cur.len(),
{
    let mut kept: Vec<usize> = Vec::new();
    let ghost mut pos: Seq<int> = Seq::empty();
    let mut i: usize = 0;
    while i < cur.len()
        invariant
            marks.len() == cur.len(),
            i <= cur.len(),
            pos.len() == kept.len(),
            kept.len() <= i,
            forall|p: int| 0 <= p < pos.len() ==> 0 <= #[trigger] pos[p] < i && !marks@[pos[p]] && kept@[p] == cur@[pos[p]],
            forall|p: int, q: int| 0 <= p < q < pos.len() ==> pos[p] < pos[q],
            forall|a: int| 0 <= a < i && !marks@[a] ==> kept@.contains(#[trigger] cur@[a]),
            kept@ == unmarked_of(cur@.take(i as int), marks@),
        decreases cur.len() - i,
    {
        proof {
            assert(cur@.take(i + 1).drop_last() =~= cur@.take(i as int));
        }
        if !marks[i] {
            let ghost before = kept@;
            proof {
                pos = pos.push(i as int);
            }
            kept.push(cur[i]);
            proof {
                assert(kept@[kept.len() - 1] == cur@[i as int]);
                assert forall|a: int| 0 <= a <= i && !marks@[a] implies kept@.contains(#[trigger] cur@[a]) by {
                    if a < i {
                        let p = choose|p: int| 0 <= p < before.len() && before[p] == cur@[a];
                        assert(kept@[p] == cur@[a]);
                    } else {
                        assert(kept@[kept.len() - 1] == cur@[a]);
                    }
                }
            }
        }
        i = i + 1;
    }
    proof {
        assert(cur@.take(cur.len() as int) =~= cur@);
        assert forall|p: int| 0 <= p < kept.len() implies #[trigger] unmarked_entry(cur@, marks@, kept@[p]) by {
            assert(0 <= pos[p] < cur.len() && !marks@[pos[p]] && kept@[p] == cur@[pos[p]]);
        }
        if increasing(cur@) {
            assert forall|p: int, q: int| 0 <= p < q < kept.len() implies kept@[p] < kept@[q] by {
                assert(pos[p] < pos[q]);
                assert(kept@[p] == cur@[pos[p]]);
                assert(kept@[q] == cur@[pos[q]]);
            }
        }
    }
    kept
}

/// The plants not marked in `marks`, by number, in increasing order
pub fn survivors(marks: &Vec<bool>) -> (kept: Vec<usize>)
    ensures
        kept@ == unmarked_of(all_plants(marks.len() as nat), marks@),
        increasing(kept@),
        all_below(kept@, marks.len() as int),
        forall|p: int| 0 <= p < kept.len() ==> !marks@[#[trigger] kept@[p] as int],
        forall|a: int| 0 <= a < marks.len() && !marks@[a] ==> kept@.contains(a as usize),
{
    let all = numbered(marks.len());
    let kept = keep_unmarked(&all, marks);
    proof {
        assert forall|p: int| 0 <= p < kept.len() implies kept@[p] < marks.len() && !marks@[kept@[p] as int] by {
            assert(unmarked_entry(all@, marks@, kept@[p]));
            let a = choose|a: int| 0 <= a < all.len() && !marks@[a] && all@[a] == kept@[p];
            assert(all@[a] == a);
        }
        assert forall|a: int| 0 <= a < marks.len() && !marks@[a] implies kept@.contains(a as usize) by {
            assert(all@[a] == a);
        }
    }
    kept
}

/// The plant numbers `0..n`
fn numbered(n: usize) -> (all: Vec<usize>)
    ensures
        all.len() == n,
        all@ == all_plants(n as nat),
        forall|a: int| 0 <= a < n ==> #[trigger] all@[a] == a,
        increasing(all@),
{
    let mut all: Vec<usize> = Vec::new();
    let mut i: usize = 0;
    while i < n
        invariant
            i <= n,
            all.len() == i,
            forall|a: int| 0 <= a < i ==> #[trigger] all@[a] == a,
        decreases n - i,
    {
        all.push(i);
        i = i + 1;
    }
    assert(all@ =~= all_plants(n as nat));
    all
}

/// Self-thinning: passes over the plants, removing the smaller of each overlapping
/// pair, until a pass removes nothing. Returns the survivors by number, in order. They
/// are those the first pass leaves (the next finds nothing to remove): no two of them
/// overlap, and every plant removed gave way to a plant it overlapped.
pub fn self_thinning(overlap: &Vec<Vec<bool>>, smaller: &Vec<Vec<bool>>) -> (kept: Vec<usize>)
    requires
        is_pair_table(overlap@, overlap.len() as int),
        is_pair_table(smaller@, overlap.len() as int),
    ensures
        kept@ == thinning_survivors(overlap@, smaller@),
        increasing(kept@),
        all_below(kept@, overlap.len() as int),
        pairwise_clear(overlap@, kept@),
        forall|k: int| 0 <= k < overlap.len() && !kept@.contains(k as usize) ==> #[trigger] gave_way(overlap@, smaller@, k),
{
    let n = overlap.len();
    let mut cur = numbered(n);
    proof {
        assert forall|k: int| 0 <= k < n implies #[trigger] cur@.contains(k as usize) by {
            assert(cur@[k] == k);
        }
    }
    let mut changed = true;
    let ghost mut first = true;
    while changed
        invariant
            first ==> changed && cur@ == all_plants(n as nat),
            !first ==> cur@ == thinning_survivors(overlap@, smaller@) && pairwise_clear(overlap@, cur@),
            n == overlap.len(),
            is_pair_table(overlap@, n as int),
            is_pair_table(smaller@, n as int),
            increasing(cur@),
            all_below(cur@, n as int),
            forall|k: int| 0 <= k < n && !cur@.contains(k as usize) ==> #[trigger] gave_way(overlap@, smaller@, k),
            !changed ==> pairwise_clear(overlap@, cur@),
        decreases (if changed { 1int } else { 0int }) + (if pairwise_clear(overlap@, cur@) { 0int } else { 1int }),
    {
        let ghost old_cur = cur@;
        let ghost was_clear = pairwise_clear(overlap@, cur@);
        let marks = thinning_marks(overlap, smaller, &cur);
        changed = any_marked(&marks);
        if changed {
            proof {
                // a clear set of plants leaves nothing to mark
                let a = choose|a: int| 0 <= a < marks.len() && marks@[a];
                let b = choose|b: int| 0 <= b < old_cur.len() && yields_to(overlap@, smaller@, old_cur[a] as int, old_cur[b] as int);
                if a < b {
                    assert(!was_clear);
                } else {
                    assert(overlapping(overlap@, old_cur[b] as int, old_cur[a] as int));
                    assert(!was_clear);
                }
            }
            let next = keep_unmarked(&cur, &marks);
            proof {
                if first {
                    assert(next@ == thinning_survivors(overlap@, smaller@));
                }
                assert forall|p: int, q: int| 0 <= p < q < next.len() implies !overlapping(overlap@, next@[p] as int, next@[q] as int) by {
                    assert(unmarked_entry(old_cur, marks@, next@[p]));
                    assert(unmarked_entry(old_cur, marks@, next@[q]));
                    let a = choose|a: int| 0 <= a < old_cur.len() && !marks@[a] && old_cur[a] == next@[p];
                    let b = choose|b: int| 0 <= b < old_cur.len() && !marks@[b] && old_cur[b] == next@[q];
                    assert(next@[p] < next@[q]);
                    if b <= a {
                        if b < a {
                            assert(old_cur[b] < old_cur[a]);
                        }
                    }
                    assert(a < b);
                    if overlapping(overlap@, old_cur[a] as int, old_cur[b] as int) {
                        assert(marks@[a] || marks@[b]);
                    }
                }
                assert forall|p: int| 0 <= p < next.len() implies next@[p] < n by {
                    assert(unmarked_entry(old_cur, marks@, next@[p]));
                }
                assert forall|k: int| 0 <= k < n && !next@.contains(k as usize) implies #[trigger] gave_way(overlap@, smaller@, k) by {
                    if old_cur.contains(k as usize) {
                        let a = choose|a: int| 0 <= a < old_cur.len() && old_cur[a] == k as usize;
                        assert(marks@[a]);
                        let b = choose|b: int| 0 <= b < old_cur.len() && yields_to(overlap@, smaller@, old_cur[a] as int, old_cur[b] as int);
                        assert(old_cur[b] < n);
                        assert(yields_to(overlap@, smaller@, k, old_cur[b] as int));
                    }
                }
            }
            cur = next;
        } else {
            proof {
                assert forall|a: int, b: int| 0 <= a < b < cur.len() implies !overlapping(overlap@, cur@[a] as int, cur@[b] as int) by {
                    if overlapping(overlap@, cur@[a] as int, cur@[b] as int) {
                        assert(marks@[a] || marks@[b]);
                    }
                }
                lemma_unmarked_all(cur@, marks@);
                if first {
                    assert(cur@ == thinning_survivors(overlap@, smaller@));
                }
            }
        }
        proof {
            first = false;
        }
    }
    cur
}

/// Where no entry is marked, every entry is kept
proof fn lemma_unmarked_all(cur: Seq<usize>, marks: Seq<bool>)
    requires
        forall|a: int| 0 <= a < cur.len() ==> !marks[a],
    ensures
        unmarked_of(cur, marks) == cur,
    decreases cur.len(),
{
    if cur.len() > 0 {
        lemma_unmarked_all(cur.drop_last(), marks);
        assert(cur.drop_last().push(cur.last()) =~= cur);
    }
}

/// One competition pass of succession: each pair in turn, where neither is marked yet
/// and they overlap, marks the less shade-tolerant; on equal tolerance a fair coin
/// picks (heads marks the first), the dice being asked for chance 1/2 once for each
/// such tie. The marks are `competition_pass` for the coins that came up; every
/// overlapping pair ends with a marked member, and every marked plant overlapped a
/// plant at least as tolerant.
pub fn competition_marks<D: Dice>(overlap: &Vec<Vec<bool>>, tolerance: &[u32], dice: &mut D) -> (marks: Vec<bool>)
    requires
        is_pair_table(overlap@, tolerance.len() as int),
    ensures
        marks.len() == tolerance.len(),
        exists|coin: spec_fn(int, int) -> bool|
            #[trigger] competition_pass(overlap@, tolerance@, coin) == marks@
                && final(dice).chances().len() == old(dice).chances().len() + competition_tosses(overlap@, tolerance@, coin),
        final(dice).chances().subrange(0, old(dice).chances().len() as int) == old(dice).chances(),
        forall|k: int|
            old(dice).chances().len() <= k < final(dice).chances().len() ==> (#[trigger] final(dice).chances()[k]).num() == 1
                && final(dice).chances()[k].den() == 2,
        forall|a: int, b: int|
            0 <= a < b < tolerance.len() && #[trigger] overlapping(overlap@, a, b) ==> marks@[a] || marks@[b],
        forall|a: int|
            0 <= a < tolerance.len() && #[trigger] marks@[a] ==> exists|b: int|
                0 <= b < tolerance.len() && outcompeted(overlap@, tolerance@, a, b),
{
    let n = tolerance.len();
    let half = Probability::ratio(1, 2).unwrap();
    let mut marks: Vec<bool> = Vec::new();
    let mut k: usize = 0;
    while k < n
        invariant
            k <= n,
            marks.len() == k,
            forall|a: int| 0 <= a < k ==> !marks@[a],
        decreases n - k,
    {
        marks.push(false);
        k = k + 1;
    }
    let ghost meets = read(overlap@);
    let ghost mut coins: Map<(int, int), bool> = Map::empty();
    let ghost c0 = dice.chances();
    let ghost mut tossed: nat = 0;
    assert(c0.subrange(0, c0.len() as int) =~= c0);
    assert(marks@ =~= no_marks(n as nat));
    let mut i: usize = 0;
    while i < n
        invariant
            n == tolerance.len(),
            is_pair_table(overlap@, n as int),
            i <= n,
            marks.len() == n,
            meets == read(overlap@),
            forall|p: (int, int)| #[trigger] coins.dom().contains(p) ==> p.0 < i,
            forall|coin: spec_fn(int, int) -> bool|
                agrees(coin, coins) ==> #[trigger] competition_pass(overlap@, tolerance@, coin) == pair_pass(
                    marks@,
                    n as int,
                    i as int,
                    i + 1,
                    meets,
                    loses_by_tolerance(tolerance@, coin),
                ),
            forall|coin: spec_fn(int, int) -> bool|
                agrees(coin, coins) ==> #[trigger] competition_tosses(overlap@, tolerance@, coin) == tossed + tie_tosses(
                    marks@,
                    n as int,
                    i as int,
                    i + 1,
                    meets,
                    tolerance@,
                    coin,
                ),
            half.num() == 1 && half.den() == 2,
            c0.len() + tossed == dice.chances().len(),
            dice.chances().subrange(0, c0.len() as int) == c0,
            forall|k: int| c0.len() <= k < dice.chances().len() ==> (#[trigger] dice.chances()[k]).num() == 1 && dice.chances()[k].den() == 2,
            forall|a: int, b: int|
                0 <= a < i && a < b < n && #[trigger] overlapping(overlap@, a, b) ==> marks@[a] || marks@[b],
            forall|a: int|
                0 <= a < n && #[trigger] marks@[a] ==> exists|b: int|
                    0 <= b < n && outcompeted(overlap@, tolerance@, a, b),
        decreases n - i,
    {
        let mut j: usize = i + 1;
        while j < n
            invariant
                n == tolerance.len(),
                is_pair_table(overlap@, n as int),
                i < n,
                i + 1 <= j <= n,
                marks.len() == n,
                meets == read(overlap@),
                forall|p: (int, int)| #[trigger] coins.dom().contains(p) ==> p.0 < i || (p.0 == i && p.1 < j),
                forall|coin: spec_fn(int, int) -> bool|
                    agrees(coin, coins) ==> #[trigger] competition_pass(overlap@, tolerance@, coin) == pair_pass(
                        marks@,
                        n as int,
                        i as int,
                        j as int,
                        meets,
                        loses_by_tolerance(tolerance@, coin),
                    ),
                forall|coin: spec_fn(int, int) -> bool|
                    agrees(coin, coins) ==> #[trigger] competition_tosses(overlap@, tolerance@, coin) == tossed + tie_tosses(
                        marks@,
                        n as int,
                        i as int,
                        j as int,
                        meets,
                        tolerance@,
                        coin,
                    ),
                half.num() == 1 && half.den() == 2,
                half.num() == 1 && half.den() == 2,
            c0.len() + tossed == dice.chances().len(),
                dice.chances().subrange(0, c0.len() as int) == c0,
                forall|k: int| c0.len() <= k < dice.chances().len() ==> (#[trigger] dice.chances()[k]).num() == 1 && dice.chances()[k].den() == 2,
                forall|a: int, b: int|
                    0 <= a < i && a < b < n && #[trigger] overlapping(overlap@, a, b) ==> marks@[a] || marks@[b],
                forall|b: int| i < b < j && #[trigger] overlapping(overlap@, i as int, b) ==> marks@[i as int] || marks@[b],
                forall|a: int|
                    0 <= a < n && #[trigger] marks@[a] ==> exists|b: int|
                        0 <= b < n && outcompeted(overlap@, tolerance@, a, b),
            decreases n - j,
        {
            let ghost m0 = marks@;
            let ghost coins0 = coins;
            let ghost tossed0 = tossed;
            let ghost mut fired = false;
            let ghost mut fl = false;
            if !marks[i] && !marks[j] && overlap[i][j] {
                let ghost before = marks@;
                let first_loses = if tolerance[i] < tolerance[j] {
                    true
                } else if tolerance[j] < tolerance[i] {
                    false
                } else {
                    let ghost cb = dice.chances();
                    let hit = dice.roll(half);
                    proof {
                        coins = coins.insert((i as int, j as int), hit);
                        tossed = tossed + 1;
                        assert(dice.chances().subrange(0, c0.len() as int) =~= cb.subrange(0, c0.len() as int));
                        assert forall|k: int| c0.len() <= k < dice.chances().len() implies (#[trigger] dice.chances()[k]).num()
                            == 1 && dice.chances()[k].den() == 2 by {
                            if k < cb.len() {
                                assert(dice.chances()[k] == cb[k]);
                            }
                        }
                    }
                    hit
                };
                proof {
                    fired = true;
                    fl = first_loses;
                }
                if first_loses {
                    marks.set(i, true);
                    assert(outcompeted(overlap@, tolerance@, i as int, j as int));
                } else {
                    marks.set(j, true);
                    assert(outcompeted(overlap@, tolerance@, j as int, i as int));
                }
                assert forall|a: int|
                    0 <= a < n && #[trigger] marks@[a] implies exists|b: int|
                        0 <= b < n && outcompeted(overlap@, tolerance@, a, b) by {
                    if a != i && a != j {
                        assert(before[a]);
                    }
                }
            }
            proof {
                assert forall|coin: spec_fn(int, int) -> bool| agrees(coin, coins) implies #[trigger] competition_pass(
                    overlap@,
                    tolerance@,
                    coin,
                ) == pair_pass(marks@, n as int, i as int, j + 1, meets, loses_by_tolerance(tolerance@, coin)) by {
                    assert forall|p: (int, int)| #[trigger] coins0.dom().contains(p) implies coin(p.0, p.1) == coins0[p] by {
                        assert(coins.dom().contains(p));
                        assert(p != (i as int, j as int));
                    }
                    assert(agrees(coin, coins0));
                    let loses = loses_by_tolerance(tolerance@, coin);
                    assert(meets(i as int, j as int) == overlap@[i as int]@[j as int]);
                    if fired && tolerance@[i as int] == tolerance@[j as int] {
                        assert(coins.dom().contains((i as int, j as int)));
                        assert(coin(i as int, j as int) == fl);
                    }
                    if fired {
                        assert(fl == loses(i as int, j as int));
                        assert(marks@ == m0.update(if fl { i as int } else { j as int }, true));
                    } else {
                        assert(marks@ == m0);
                    }
                    assert(loses(i as int, j as int) == (tolerance@[i as int] < tolerance@[j as int] || (
                    tolerance@[i as int] == tolerance@[j as int] && coin(i as int, j as int))));
                    assert(pair_pass(m0, n as int, i as int, j as int, meets, loses) == pair_pass(
                        marks@,
                        n as int,
                        i as int,
                        j + 1,
                        meets,
                        loses,
                    ));
                }
            }
            proof {
                assert(tossed == tossed0 + if fired && tolerance@[i as int] == tolerance@[j as int] { 1nat } else { 0nat });
                assert forall|coin: spec_fn(int, int) -> bool| agrees(coin, coins) implies #[trigger] competition_tosses(
                    overlap@,
                    tolerance@,
                    coin,
                ) == tossed + tie_tosses(marks@, n as int, i as int, j + 1, meets, tolerance@, coin) by {
                    assert forall|p: (int, int)| #[trigger] coins0.dom().contains(p) implies coin(p.0, p.1) == coins0[p] by {
                        assert(coins.dom().contains(p));
                        assert(p != (i as int, j as int));
                    }
                    assert(agrees(coin, coins0));
                    let loses = loses_by_tolerance(tolerance@, coin);
                    assert(meets(i as int, j as int) == overlap@[i as int]@[j as int]);
                    if fired && tolerance@[i as int] == tolerance@[j as int] {
                        assert(coins.dom().contains((i as int, j as int)));
                        assert(coin(i as int, j as int) == fl);
                    }
                    if fired {
                        assert(fl == loses(i as int, j as int));
                        assert(marks@ == m0.update(if fl { i as int } else { j as int }, true));
                    } else {
                        assert(marks@ == m0);
                    }
                    assert(tie_tosses(m0, n as int, i as int, j as int, meets, tolerance@, coin) == (if fired
                        && tolerance@[i as int] == tolerance@[j as int] {
                        1nat
                    } else {
                        0nat
                    }) + tie_tosses(marks@, n as int, i as int, j + 1, meets, tolerance@, coin));
                }
            }
            j = j + 1;
        }
        i = i + 1;
    }
    proof {
        let coin = |a: int, b: int| if coins.dom().contains((a, b)) { coins[(a, b)] } else { false };
        assert(agrees(coin, coins));
        assert(competition_pass(overlap@, tolerance@, coin) == marks@);
        assert(competition_tosses(overlap@, tolerance@, coin) == tossed);
    }
    marks
}

/// A plant strictly more shade-tolerant than every plant it overlaps survives a
/// competition pass
pub proof fn lemma_most_tolerant_survives(overlap: Seq<Vec<bool>>, tolerance: Seq<u32>, marks: Seq<bool>, k: int)
    requires
        0 <= k < tolerance.len(),
        marks.len() == tolerance.len(),
        forall|a: int|
            0 <= a < tolerance.len() && #[trigger] marks[a] ==> exists|b: int|
                0 <= b < tolerance.len() && outcompeted(overlap, tolerance, a, b),
        forall|m: int| 0 <= m < tolerance.len() && overlapping(overlap, k, m) ==> tolerance[m] < tolerance[k],
    ensures
        !marks[k],
{
    if marks[k] {
        let b = choose|b: int| 0 <= b < tolerance.len() && outcompeted(overlap, tolerance, k, b);
        assert(tolerance[b] < tolerance[k]);
    }
}

/// Two rules for which of a pair loses give the same pass where they agree on every
/// pair that meets
proof fn lemma_pair_pass_agree(
    m: Seq<bool>,
    n: int,
    i: int,
    j: int,
    meets: spec_fn(int, int) -> bool,
    f1: spec_fn(int, int) -> bool,
    f2: spec_fn(int, int) -> bool,
)
    requires
        0 <= i < j,
        forall|a: int, b: int| 0 <= a < b < n && #[trigger] meets(a, b) ==> f1(a, b) == f2(a, b),
    ensures
        pair_pass(m, n, i, j, meets, f1) == pair_pass(m, n, i, j, meets, f2),
    decreases n - i, n - j,
{
    if i >= n {
    } else if j >= n {
        lemma_pair_pass_agree(m, n, i + 1, i + 2, meets, f1, f2);
    } else {
        let next = if !m[i] && !m[j] && meets(i, j) {
            if f1(i, j) {
                m.update(i, true)
            } else {
                m.update(j, true)
            }
        } else {
            m
        };
        lemma_pair_pass_agree(next, n, i, j + 1, meets, f1, f2);
    }
}

/// Where no two overlapping plants are equally shade-tolerant the coin is never
/// consulted: a competition pass has a single outcome
pub proof fn lemma_competition_without_ties_is_determined(
    overlap: Seq<Vec<bool>>,
    tolerance: Seq<u32>,
    c1: spec_fn(int, int) -> bool,
    c2: spec_fn(int, int) -> bool,
)
    requires
        is_pair_table(overlap, tolerance.len() as int),
        forall|a: int, b: int| 0 <= a < b < tolerance.len() && overlap[a]@[b] ==> tolerance[a] != tolerance[b],
    ensures
        competition_pass(overlap, tolerance, c1) == competition_pass(overlap, tolerance, c2),
{
    let n = tolerance.len();
    let meets = read(overlap);
    let f1 = loses_by_tolerance(tolerance, c1);
    let f2 = loses_by_tolerance(tolerance, c2);
    assert forall|a: int, b: int| 0 <= a < b < n && #[trigger] meets(a, b) implies f1(a, b) == f2(a, b) by {
        assert(meets(a, b) == overlap[a]@[b]);
    }
    lemma_pair_pass_agree(no_marks(n), n as int, 0, 1, meets, f1, f2);
}

/// Pair `(a, b)` ordered as the pass visits it: smaller number first
pub open spec fn visit_pair(a: int, b: int) -> (int, int) {
    if a < b { (a, b) } else { (b, a) }
}

/// Pair `p` is visited before pair `q`
pub open spec fn visited_before(p: (int, int), q: (int, int)) -> bool {
    p.0 < q.0 || (p.0 == q.0 && p.1 < q.1)
}

/// Plant `a` gives way to plant `b`, when `meets` and `first_loses` decide the pair
/// `(a, b)` visited in order
pub open spec fn gives_way_to(meets: spec_fn(int, int) -> bool, first_loses: spec_fn(int, int) -> bool, a: int, b: int) -> bool {
    if a < b {
        meets(a, b) && first_loses(a, b)
    } else {
        meets(b, a) && !first_loses(b, a)
    }
}

/// Every plant marked in `m` was removed winner a plant `by(a)` that it gave way to, and
/// that plant was still present then: it is either unmarked, or removed at a pair
/// visited later. (A removed plant never removes another.)
pub open spec fn removed_in_turn(
    m: Seq<bool>,
    n: int,
    meets: spec_fn(int, int) -> bool,
    first_loses: spec_fn(int, int) -> bool,
    winner: spec_fn(int) -> int,
) -> bool {
    forall|a: int| 0 <= a < n && #[trigger] m[a] ==> {
        let b = winner(a);
        &&& 0 <= b < n
        &&& b != a
        &&& gives_way_to(meets, first_loses, a, b)
        &&& m[b] ==> visited_before(visit_pair(a, b), visit_pair(b, winner(b)))
    }
}

proof fn lemma_pair_pass_in_turn(
    m: Seq<bool>,
    n: int,
    i: int,
    j: int,
    meets: spec_fn(int, int) -> bool,
    first_loses: spec_fn(int, int) -> bool,
    winner: spec_fn(int) -> int,
)
    requires
        m.len() == n,
        0 <= i < j,
        removed_in_turn(m, n, meets, first_loses, winner),
        forall|a: int| 0 <= a < n && #[trigger] m[a] ==> visited_before(visit_pair(a, winner(a)), (i, j)),
    ensures
        exists|winner2: spec_fn(int) -> int|
            #[trigger] removed_in_turn(pair_pass(m, n, i, j, meets, first_loses), n, meets, first_loses, winner2),
    decreases n - i, n - j,
{
    if i >= n {
        assert(removed_in_turn(pair_pass(m, n, i, j, meets, first_loses), n, meets, first_loses, winner));
    } else if j >= n {
        assert forall|a: int| 0 <= a < n && #[trigger] m[a] implies visited_before(visit_pair(a, winner(a)), (i + 1, i + 2)) by {
        }
        lemma_pair_pass_in_turn(m, n, i + 1, i + 2, meets, first_loses, winner);
        assert(pair_pass(m, n, i, j, meets, first_loses) == pair_pass(m, n, i + 1, i + 2, meets, first_loses));
    } else if !m[i] && !m[j] && meets(i, j) {
        let x = if first_loses(i, j) { i } else { j };
        let y = if first_loses(i, j) { j } else { i };
        let next = m.update(x, true);
        let winner2 = |a: int| if a == x { y } else { winner(a) };
        assert forall|a: int| 0 <= a < n && #[trigger] next[a] implies {
            let b = winner2(a);
            &&& 0 <= b < n
            &&& b != a
            &&& gives_way_to(meets, first_loses, a, b)
            &&& next[b] ==> visited_before(visit_pair(a, b), visit_pair(b, winner2(b)))
        } by {
            if a != x {
                assert(m[a]);
                let b = winner(a);
                if b == x {
                    assert(visit_pair(b, winner2(b)) == (i, j));
                }
            }
        }
        assert forall|a: int| 0 <= a < n && #[trigger] next[a] implies visited_before(visit_pair(a, winner2(a)), (i, j + 1)) by {
            if a != x {
                assert(m[a]);
            }
        }
        assert(removed_in_turn(next, n, meets, first_loses, winner2));
        lemma_pair_pass_in_turn(next, n, i, j + 1, meets, first_loses, winner2);
        assert(pair_pass(m, n, i, j, meets, first_loses) == pair_pass(next, n, i, j + 1, meets, first_loses));
    } else {
        lemma_pair_pass_in_turn(m, n, i, j + 1, meets, first_loses, winner);
        assert(pair_pass(m, n, i, j, meets, first_loses) == pair_pass(m, n, i, j + 1, meets, first_loses));
    }
}

/// Every plant marked in `marks` overlaps, and is no larger than, the plant
/// `winner(a)` of `cur`, which was still present when their pair was decided: unmarked,
/// or removed at a pair visited later
pub open spec fn thinned_in_turn(
    overlap: Seq<Vec<bool>>,
    smaller: Seq<Vec<bool>>,
    cur: Seq<usize>,
    marks: Seq<bool>,
    winner: spec_fn(int) -> int,
) -> bool {
    forall|a: int| 0 <= a < cur.len() && #[trigger] marks[a] ==> {
        let b = winner(a);
        &&& 0 <= b < cur.len()
        &&& b != a
        &&& if a < b {
            overlap[cur[a] as int]@[cur[b] as int] && smaller[cur[a] as int]@[cur[b] as int]
        } else {
            overlap[cur[b] as int]@[cur[a] as int] && !smaller[cur[b] as int]@[cur[a] as int]
        }
        &&& marks[b] ==> visited_before(visit_pair(a, b), visit_pair(b, winner(b)))
    }
}

/// A self-thinning pass removes plants in turn: every plant it removes overlaps, and is
/// no larger than, a plant that was still present when their pair was decided (a plant
/// the pass has already removed removes no other).
pub proof fn lemma_thinning_removes_in_turn(overlap: Seq<Vec<bool>>, smaller: Seq<Vec<bool>>, cur: Seq<usize>)
    ensures
        exists|winner: spec_fn(int) -> int| #[trigger] thinned_in_turn(overlap, smaller, cur, thinning_pass(overlap, smaller, cur), winner),
{
    let n = cur.len() as int;
    let w = |a: int| 0int;
    assert(removed_in_turn(no_marks(cur.len()), n, read_through(overlap, cur), read_through(smaller, cur), w));
    lemma_pair_pass_in_turn(no_marks(cur.len()), n, 0, 1, read_through(overlap, cur), read_through(smaller, cur), w);
    let w2 = choose|w2: spec_fn(int) -> int|
        removed_in_turn(thinning_pass(overlap, smaller, cur), n, read_through(overlap, cur), read_through(smaller, cur), w2);
    assert(thinned_in_turn(overlap, smaller, cur, thinning_pass(overlap, smaller, cur), w2));
}

/// Every plant marked in `marks` overlaps the plant `winner(a)` and lost to it (less
/// shade-tolerant, or tied and the coin of their pair said so), and that plant was
/// still present when their pair was decided: unmarked, or marked at a pair visited
/// later
pub open spec fn outcompeted_in_turn(
    overlap: Seq<Vec<bool>>,
    tolerance: Seq<u32>,
    coin: spec_fn(int, int) -> bool,
    marks: Seq<bool>,
    winner: spec_fn(int) -> int,
) -> bool {
    forall|a: int| 0 <= a < tolerance.len() && #[trigger] marks[a] ==> {
        let b = winner(a);
        &&& 0 <= b < tolerance.len()
        &&& b != a
        &&& if a < b {
            overlap[a]@[b] && (tolerance[a] < tolerance[b] || (tolerance[a] == tolerance[b] && coin(a, b)))
        } else {
            overlap[b]@[a] && !(tolerance[b] < tolerance[a] || (tolerance[b] == tolerance[a] && coin(b, a)))
        }
        &&& marks[b] ==> visited_before(visit_pair(a, b), visit_pair(b, winner(b)))
    }
}

/// A competition pass removes plants in turn: every plant it marks overlaps a plant
/// that was still unmarked when their pair was decided, and lost to it; a plant already
/// marked marks no other.
pub proof fn lemma_competition_removes_in_turn(overlap: Seq<Vec<bool>>, tolerance: Seq<u32>, coin: spec_fn(int, int) -> bool)
    ensures
        exists|winner: spec_fn(int) -> int|
            #[trigger] outcompeted_in_turn(overlap, tolerance, coin, competition_pass(overlap, tolerance, coin), winner),
{
    let n = tolerance.len() as int;
    let w = |a: int| 0int;
    let fl = loses_by_tolerance(tolerance, coin);
    assert(removed_in_turn(no_marks(tolerance.len()), n, read(overlap), fl, w));
    lemma_pair_pass_in_turn(no_marks(tolerance.len()), n, 0, 1, read(overlap), fl, w);
    let w2 = choose|w2: spec_fn(int) -> int| removed_in_turn(competition_pass(overlap, tolerance, coin), n, read(overlap), fl, w2);
    assert(outcompeted_in_turn(overlap, tolerance, coin, competition_pass(overlap, tolerance, coin), w2));
}

} // verus!
