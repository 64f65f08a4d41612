//! The scene controller's bookkeeping: what changed since the last build, what each
//! plant's cached geometry needs, and how the combined line segments and buffers are
//! split up for upload.
use vstd::prelude::*;

use crate::lod::LodTier;
use crate::turtle::geometry::{LineGeometry, MeshGeometry};

verus! {

/// Maximum number of vertices or indices per GPU buffer
pub const MAX_VERTS: usize = 20_000_000;

/// The generations and modes the last build was made for; a build is needed when any
/// of them differs from the current one
pub struct RebuildTracker {
    pub last_debug_mode: bool,
    pub last_scene_gen: u64,
    pub last_env_gen: u64,
    pub last_eco_gen: u64,
    pub last_active_scene: usize,
}

/// One plant's geometry as last built, and the tiers it was built for
pub struct PlantCache<V, U> {
    /// Tier used for the geometry
    pub tier: LodTier,
    /// Tier requested by distance and frustum before any adjustment
    pub requested_tier: LodTier,
    pub line_geo: LineGeometry<V>,
    pub mesh_geo: MeshGeometry<V, U>,
}

impl<V, U> PlantCache<V, U> {
    /// A cache with no geometry, built for and requested at `tier`
    pub fn empty(tier: LodTier) -> (c: Self)
        ensures
            c.tier == tier,
            c.requested_tier == tier,
            c.line_geo.vertices@.len() == 0,
            c.line_geo.colours@.len() == 0,
            c.line_geo.indices@.len() == 0,
            c.line_geo.segments@.len() == 0,
            c.mesh_geo.vertices@.len() == 0,
            c.mesh_geo.normals@.len() == 0,
            c.mesh_geo.colours@.len() == 0,
            c.mesh_geo.indices@.len() == 0,
            c.mesh_geo.uvs@.len() == 0,
            c.mesh_geo.tangents@.len() == 0,
    {
        PlantCache {
            tier,
            requested_tier: tier,
            line_geo: LineGeometry { vertices: Vec::new(), colours: Vec::new(), indices: Vec::new(), segments: Vec::new() },
            mesh_geo: MeshGeometry {
                vertices: Vec::new(),
                normals: Vec::new(),
                colours: Vec::new(),
                indices: Vec::new(),
                uvs: Vec::new(),
                tangents: Vec::new(),
            },
        }
    }
}

/// What the build loop does with one plant's cached geometry
#[derive(Debug, Clone, Copy, PartialEq, Eq, Structural)]
pub enum PlantWork {
    /// The cache stays as it is
    Keep,
    /// The plant is culled: its cache becomes empty
    Cull,
    /// The geometry is built anew at this tier
    Build(LodTier),
}

/// Whether some plant's desired tier differs from the tier its cache was requested at
pub open spec fn tiers_differ(desired: Seq<LodTier>, requested: Seq<LodTier>) -> bool {
    exists|i: int| 0 <= i < desired.len() && desired[i] != requested[i]
}

/// What happens to plant `i`: on a partial rebuild an unchanged tier keeps its cache;
/// otherwise a culled plant is emptied and any other is built at its desired tier
pub open spec fn planned_work(full_rebuild: bool, desired: Seq<LodTier>, requested: Seq<LodTier>, i: int) -> PlantWork {
    if !full_rebuild && desired[i] == requested[i] {
        PlantWork::Keep
    } else if desired[i] == LodTier::Culled {
        PlantWork::Cull
    } else {
        PlantWork::Build(desired[i])
    }
}

impl RebuildTracker {
    /// Nothing built yet: every generation is unknown
    pub fn new() -> (t: Self)
        ensures
            t.last_debug_mode == false,
            t.last_scene_gen == u64::MAX,
            t.last_env_gen == u64::MAX,
            t.last_eco_gen == u64::MAX,
            t.last_active_scene == usize::MAX,
    {
        RebuildTracker {
            last_debug_mode: false,
            last_scene_gen: u64::MAX,
            last_env_gen: u64::MAX,
            last_eco_gen: u64::MAX,
            last_active_scene: usize::MAX,
        }
    }

    /// Whether the plants must be generated anew because the active scene or its
    /// ecosystem generation changed; either way both are recorded
    pub fn take_ecosystem_change(&mut self, active_scene: usize, eco_gen: u64) -> (changed: bool)
        ensures
            changed == (active_scene != old(self).last_active_scene || eco_gen != old(self).last_eco_gen),
            final(self).last_active_scene == active_scene,
            final(self).last_eco_gen == eco_gen,
            final(self).last_debug_mode == old(self).last_debug_mode,
            final(self).last_scene_gen == old(self).last_scene_gen,
            final(self).last_env_gen == old(self).last_env_gen,
    {
        if active_scene != self.last_active_scene || eco_gen != self.last_eco_gen {
            self.last_eco_gen = eco_gen;
            self.last_active_scene = active_scene;
            true
        } else {
            false
        }
    }

    /// Whether every plant's geometry must be rebuilt: the plants were regenerated, the
    /// scene or environment changed, the cache count no longer matches the plants, or
    /// the level-of-detail pressure moved
    pub fn needs_full_rebuild(
        &self,
        eco_changed: bool,
        scene_gen: u64,
        env_gen: u64,
        cached_plants: usize,
        plants: usize,
        pressure_changed: bool,
    ) -> (full: bool)
        ensures
            full == (eco_changed || scene_gen != self.last_scene_gen || env_gen != self.last_env_gen
                || cached_plants != plants || pressure_changed),
    {
        eco_changed || scene_gen != self.last_scene_gen || env_gen != self.last_env_gen
            || cached_plants != plants || pressure_changed
    }

    /// A frame needs a build when a full rebuild is due, the debug mode changed, some
    /// plant's tier changed, or nothing has been built yet
    pub open spec fn build_due(
        self,
        full_rebuild: bool,
        debug_mode: bool,
        desired: Seq<LodTier>,
        requested: Seq<LodTier>,
        have_segments: bool,
    ) -> bool {
        full_rebuild || debug_mode != self.last_debug_mode || tiers_differ(desired, requested) || !have_segments
    }

    /// Whether the frame needs a build at all rather than the cached output: something
    /// changed, or nothing has been built yet
    pub fn needs_build(
        &self,
        full_rebuild: bool,
        debug_mode: bool,
        desired: &[LodTier],
        requested: &[LodTier],
        have_segments: bool,
    ) -> (build: bool)
        requires
            full_rebuild || debug_mode != self.last_debug_mode || desired.len() <= requested.len(),
        ensures
            build == self.build_due(full_rebuild, debug_mode, desired@, requested@, have_segments),
    {
        let any_changed = full_rebuild || debug_mode != self.last_debug_mode || tiers_changed(desired, requested);
        any_changed || !have_segments
    }

    /// Records what the build just made was made for
    pub fn record_build(&mut self, debug_mode: bool, scene_gen: u64, env_gen: u64)
        ensures
            final(self).last_debug_mode == debug_mode,
            final(self).last_scene_gen == scene_gen,
            final(self).last_env_gen == env_gen,
            final(self).last_eco_gen == old(self).last_eco_gen,
            final(self).last_active_scene == old(self).last_active_scene,
    {
        self.last_debug_mode = debug_mode;
        self.last_scene_gen = scene_gen;
        self.last_env_gen = env_gen;
    }
}

/// Whether some plant's desired tier differs from the tier its cache was requested at
pub fn tiers_changed(desired: &[LodTier], requested: &[LodTier]) -> (r: bool)
    requires
        desired.len() <= requested.len(),
    ensures
        r == tiers_differ(desired@, requested@),
{
    let mut i: usize = 0;
    while i < desired.len()
        invariant
            i <= desired.len() <= requested.len(),
            forall|j: int| 0 <= j < i ==> desired@[j] == requested@[j],
        decreases desired.len() - i,
    {
        if desired[i] != requested[i] {
            return true;
        }
        i = i + 1;
    }
    false
}

/// The tier each plant had at the last build, as the hysteresis compares against it:
/// `Culled` for all on a full rebuild or when nothing is cached
pub fn previous_tiers(full_rebuild: bool, cached: &[LodTier], plants: usize) -> (prev: Vec<LodTier>)
    requires
        full_rebuild || cached.len() == 0 || plants <= cached.len(),
    ensures
        prev.len() == plants,
        forall|i: int| 0 <= i < plants ==> #[trigger] prev@[i] == if full_rebuild || cached.len() == 0 {
            LodTier::Culled
        } else {
            cached@[i]
        },
{
    let fresh = full_rebuild || cached.len() == 0;
    let mut prev: Vec<LodTier> = Vec::new();
    let mut i: usize = 0;
    while i < plants
        invariant
            i <= plants,
            fresh == (full_rebuild || cached.len() == 0),
            fresh || plants <= cached.len(),
            prev.len() == i,
            forall|j: int| 0 <= j < i ==> #[trigger] prev@[j] == if fresh { LodTier::Culled } else { cached@[j] },
        decreases plants - i,
    {
        if fresh {
            prev.push(LodTier::Culled);
        } else {
            prev.push(cached[i]);
        }
        i = i + 1;
    }
    prev
}

/// What the build loop does with each plant's cache
pub fn plan_plants(full_rebuild: bool, desired: &[LodTier], requested: &[LodTier]) -> (plan: Vec<PlantWork>)
    requires
        full_rebuild || desired.len() <= requested.len(),
    ensures
        plan.len() == desired.len(),
        forall|i: int| 0 <= i < desired.len() ==> #[trigger] plan@[i] == planned_work(full_rebuild, desired@, requested@, i),
{
    let mut plan: Vec<PlantWork> = Vec::new();
    let mut i: usize = 0;
    while i < desired.len()
        invariant
            i <= desired.len(),
            full_rebuild || desired.len() <= requested.len(),
            plan.len() == i,
            forall|j: int| 0 <= j < i ==> #[trigger] plan@[j] == planned_work(full_rebuild, desired@, requested@, j),
        decreases desired.len() - i,
    {
        let work = if !full_rebuild && desired[i] == requested[i] {
            PlantWork::Keep
        } else if desired[i] == LodTier::Culled {
            PlantWork::Cull
        } else {
            PlantWork::Build(desired[i])
        };
        plan.push(work);
        i = i + 1;
    }
    plan
}

/// Splits the combined line segments into the plants' (the first `plant_segments`, or
/// all if there are fewer) and the debug overlays' (the rest)
pub fn split_segments(segments: &[(u32, u32)], plant_segments: usize) -> (r: (Vec<(u32, u32)>, Vec<(u32, u32)>))
    ensures
        ({
            let k = if plant_segments < segments@.len() { plant_segments as int } else { segments@.len() as int };
            &&& r.0@ == segments@.take(k)
            &&& r.1@ == segments@.skip(k)
        }),
{
    let k = if plant_segments < segments.len() { plant_segments } else { segments.len() };
    let mut plants: Vec<(u32, u32)> = Vec::new();
    let mut debug: Vec<(u32, u32)> = Vec::new();
    let mut i: usize = 0;
    while i < segments.len()
        invariant
            k <= segments.len(),
            i <= segments.len(),
            plants@ == segments@.take(if i < k { i as int } else { k as int }),
            debug@ == (if i <= k { Seq::<(u32, u32)>::empty() } else { segments@.subrange(k as int, i as int) }),
        decreases segments.len() - i,
    {
        if i < k {
            plants.push(segments[i]);
            proof {
                assert(segments@.take(i + 1) =~= segments@.take(i as int).push(segments@[i as int]));
            }
        } else {
            debug.push(segments[i]);
            proof {
                assert(segments@.subrange(k as int, i + 1) =~= (if i <= k {
                    Seq::<(u32, u32)>::empty()
                } else {
                    segments@.subrange(k as int, i as int)
                }).push(segments@[i as int]));
            }
        }
        i = i + 1;
    }
    proof {
        assert(segments@.skip(k as int) =~= (if segments.len() <= k {
            Seq::<(u32, u32)>::empty()
        } else {
            segments@.subrange(k as int, segments.len() as int)
        }));
    }
    (plants, debug)
}

/// Which combined geometry may be written to the buffers: lines when there is a vertex
/// and both counts fit, the mesh when there is an index and both counts fit
pub fn upload_plan(line_vertices: usize, line_indices: usize, mesh_vertices: usize, mesh_indices: usize) -> (r: (bool, bool))
    ensures
        r.0 == (line_vertices > 0 && line_vertices <= MAX_VERTS && line_indices <= MAX_VERTS),
        r.1 == (mesh_indices > 0 && mesh_vertices <= MAX_VERTS && mesh_indices <= MAX_VERTS),
{
    (
        line_vertices > 0 && line_vertices <= MAX_VERTS && line_indices <= MAX_VERTS,
        mesh_indices > 0 && mesh_vertices <= MAX_VERTS && mesh_indices <= MAX_VERTS,
    )
}

/// A split hands back every segment, plants' first: nothing is lost or reordered
pub proof fn lemma_split_segments_partition(segments: Seq<(u32, u32)>, k: int)
    requires
        0 <= k <= segments.len(),
    ensures
        segments.take(k) + segments.skip(k) == segments,
{
    assert(segments.take(k) + segments.skip(k) =~= segments);
}

/// A plan never builds a culled plant, and on a full rebuild it keeps nothing. A plant
/// keeps its cache exactly when no full rebuild is due and its tier is unchanged;
/// otherwise a plant now culled is emptied and any other is built at the tier it now
/// wants, never at another.
pub proof fn lemma_plan_never_builds_culled(full_rebuild: bool, desired: Seq<LodTier>, requested: Seq<LodTier>, i: int)
    requires
        0 <= i < desired.len(),
    ensures
        planned_work(full_rebuild, desired, requested, i) != PlantWork::Build(LodTier::Culled),
        full_rebuild ==> planned_work(full_rebuild, desired, requested, i) != PlantWork::Keep,
        planned_work(full_rebuild, desired, requested, i) == PlantWork::Keep ==> desired[i] == requested[i],
        (!full_rebuild && desired[i] == requested[i]) ==> planned_work(full_rebuild, desired, requested, i) == PlantWork::Keep,
        planned_work(full_rebuild, desired, requested, i) == PlantWork::Cull <==> (desired[i] == LodTier::Culled
            && !(!full_rebuild && desired[i] == requested[i])),
        planned_work(full_rebuild, desired, requested, i) matches PlantWork::Build(t) ==> t == desired[i],
{
}

/// A frame in which nothing changed since the last build (no full rebuild due, the same
/// debug mode, every plant at the tier its cache was requested at) is served from the
/// cache, once something has been built
pub proof fn lemma_unchanged_frame_is_cached(t: RebuildTracker, tiers: Seq<LodTier>)
    ensures
        !t.build_due(false, t.last_debug_mode, tiers, tiers, true),
{
}

} // verus!
