//! Level-of-detail tiers and their tallies.
use vstd::prelude::*;

verus! {

// ── LOD tier enum ──

#[derive(Debug, Clone, Copy, PartialEq, Eq, Structural, PartialOrd, Ord)]
pub enum LodTier {
    /// Full detail: 8 cylinder segments, all branches, all leaves
    Near,
    /// Medium detail: 5 cylinder segments, reduced leaf density
    Mid,
    /// Low detail: 3 cylinder segments, thin branches culled, reduced leaf density
    Far,
    /// Beyond far threshold: no mesh, line skeleton only, no leaves
    Beyond,
    /// Outside view frustum: nothing rendered
    Culled,
}

impl LodTier {
    /// Position of the tier from nearest (0) to culled (4)
    pub open spec fn spec_index(self) -> usize {
        match self {
            LodTier::Near => 0,
            LodTier::Mid => 1,
            LodTier::Far => 2,
            LodTier::Beyond => 3,
            LodTier::Culled => 4,
        }
    }

    pub fn index(self) -> (i: usize)
        ensures
            i == self.spec_index(),
    {
        match self {
            LodTier::Near => 0,
            LodTier::Mid => 1,
            LodTier::Far => 2,
            LodTier::Beyond => 3,
            LodTier::Culled => 4,
        }
    }

    /// Cylinder segments used for geometry at this tier (0 = no mesh)
    pub fn cylinder_segments(self) -> (n: usize)
        ensures
            n == match self {
                LodTier::Near => 8usize,
                LodTier::Mid => 5,
                LodTier::Far => 3,
                _ => 0,
            },
    {
        match self {
            LodTier::Near => 8,
            LodTier::Mid => 5,
            LodTier::Far => 3,
            _ => 0,
        }
    }
}

/// How many of `tiers` are `tier`
pub open spec fn count_tier(tiers: Seq<LodTier>, tier: LodTier) -> nat
    decreases tiers.len(),
{
    if tiers.len() == 0 {
        0
    } else {
        count_tier(tiers.drop_last(), tier) + if tiers.last() == tier { 1nat } else { 0 }
    }
}

/// Plants per visible tier (index = tier position, `Near..Beyond`) and the number culled
pub fn tally_tiers(tiers: &[LodTier]) -> (r: ([usize; 4], usize))
    ensures
        r.0[0] == count_tier(tiers@, LodTier::Near),
        r.0[1] == count_tier(tiers@, LodTier::Mid),
        r.0[2] == count_tier(tiers@, LodTier::Far),
        r.0[3] == count_tier(tiers@, LodTier::Beyond),
        r.1 == count_tier(tiers@, LodTier::Culled),
        r.0[0] + r.0[1] + r.0[2] + r.0[3] + r.1 == tiers@.len(),
{
    let mut near: usize = 0;
    let mut mid: usize = 0;
    let mut far: usize = 0;
    let mut beyond: usize = 0;
    let mut culled: usize = 0;
    let n = tiers.len();
    let mut i: usize = 0;
    while i < n
        invariant
            n == tiers@.len(),
            i <= n,
            near == count_tier(tiers@.subrange(0, i as int), LodTier::Near),
            mid == count_tier(tiers@.subrange(0, i as int), LodTier::Mid),
            far == count_tier(tiers@.subrange(0, i as int), LodTier::Far),
            beyond == count_tier(tiers@.subrange(0, i as int), LodTier::Beyond),
            culled == count_tier(tiers@.subrange(0, i as int), LodTier::Culled),
            near + mid + far + beyond + culled == i,
        decreases n - i,
    {
        proof {
            assert(tiers@.subrange(0, i + 1).drop_last() =~= tiers@.subrange(0, i as int));
        }
        match tiers[i] {
            LodTier::Near => near = near + 1,
            LodTier::Mid => mid = mid + 1,
            LodTier::Far => far = far + 1,
            LodTier::Beyond => beyond = beyond + 1,
            LodTier::Culled => culled = culled + 1,
        }
        i = i + 1;
    }
    assert(tiers@.subrange(0, n as int) =~= tiers@);
    ([near, mid, far, beyond], culled)
}

/// Tallying counts each plant once, in its own tier: a single plant counts one in its
/// tier and none in any other, and the tally of two runs of plants is the sum of
/// their tallies.
pub proof fn lemma_count_tier_adds(a: Seq<LodTier>, b: Seq<LodTier>, t: LodTier, tier: LodTier)
    ensures
        count_tier(seq![t], tier) == if t == tier { 1nat } else { 0nat },
        count_tier(a + b, tier) == count_tier(a, tier) + count_tier(b, tier),
    decreases b.len(),
{
    assert(seq![t].drop_last() =~= Seq::<LodTier>::empty());
    assert(count_tier(Seq::<LodTier>::empty(), tier) == 0);
    assert(seq![t].last() == t);
    assert(count_tier(seq![t], tier) == count_tier(seq![t].drop_last(), tier) + if t == tier { 1nat } else { 0nat });
    if b.len() == 0 {
        assert(a + b =~= a);
    } else {
        lemma_count_tier_adds(a, b.drop_last(), t, tier);
        assert((a + b).drop_last() =~= a + b.drop_last());
        assert((a + b).last() == b.last());
    }
}

} // verus!
