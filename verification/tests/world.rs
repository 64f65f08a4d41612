use comp3931::dice::SeededDice;
use comp3931::ecosystem::{competition_marks, self_thinning, survivors};
use comp3931::lod::LodTier;
use comp3931::lsystem::{Dice, Probability};
use comp3931::scenes::controller::{
    plan_plants, previous_tiers, split_segments, tiers_changed, upload_plan, PlantCache, PlantWork,
    RebuildTracker, MAX_VERTS,
};
use comp3931::settings::{PlantType, WorldDate};
use comp3931::state::{Focus, InputState, Key, KeyResponse, Movement, SceneKeyEffect};

// ── Rebuild bookkeeping ──

#[test]
fn a_new_tracker_sees_every_scene_as_changed() {
    let mut t = RebuildTracker::new();
    assert!(t.take_ecosystem_change(0, 0));
    assert!(!t.take_ecosystem_change(0, 0));
    assert!(t.take_ecosystem_change(1, 0));
    assert!(t.take_ecosystem_change(1, 5));
    assert!(t.needs_full_rebuild(false, 0, 0, 3, 3, false));
    t.record_build(false, 0, 0);
    assert!(!t.needs_full_rebuild(false, 0, 0, 3, 3, false));
    assert!(t.needs_full_rebuild(false, 0, 0, 2, 3, false));
    assert!(t.needs_full_rebuild(false, 1, 0, 3, 3, false));
    assert!(t.needs_full_rebuild(false, 0, 0, 3, 3, true));
    assert!(t.needs_full_rebuild(true, 0, 0, 3, 3, false));
}

#[test]
fn build_only_when_something_changed() {
    let mut t = RebuildTracker::new();
    t.record_build(false, 1, 1);
    let tiers = [LodTier::Near, LodTier::Far];
    assert!(!t.needs_build(false, false, &tiers, &tiers, true));
    assert!(t.needs_build(false, false, &tiers, &tiers, false));
    assert!(t.needs_build(false, true, &tiers, &tiers, true));
    assert!(t.needs_build(true, false, &tiers, &tiers, true));
    assert!(t.needs_build(false, false, &tiers, &[LodTier::Near, LodTier::Mid], true));
}

#[test]
fn tiers_changed_compares_pairwise() {
    assert!(!tiers_changed(&[], &[]));
    assert!(!tiers_changed(&[LodTier::Mid], &[LodTier::Mid, LodTier::Far]));
    assert!(tiers_changed(&[LodTier::Mid, LodTier::Near], &[LodTier::Mid, LodTier::Far]));
}

#[test]
fn plan_keeps_unchanged_plants_on_a_partial_rebuild() {
    let desired = [LodTier::Near, LodTier::Culled, LodTier::Far, LodTier::Culled];
    let requested = [LodTier::Near, LodTier::Mid, LodTier::Mid, LodTier::Culled];
    assert_eq!(plan_plants(false, &desired, &requested), vec![
        PlantWork::Keep,
        PlantWork::Cull,
        PlantWork::Build(LodTier::Far),
        PlantWork::Keep,
    ]);
    assert_eq!(plan_plants(true, &desired, &[]), vec![
        PlantWork::Build(LodTier::Near),
        PlantWork::Cull,
        PlantWork::Build(LodTier::Far),
        PlantWork::Cull,
    ]);
}

#[test]
fn previous_tiers_start_culled() {
    let cached = [LodTier::Mid, LodTier::Beyond];
    assert_eq!(previous_tiers(true, &cached, 2), vec![LodTier::Culled, LodTier::Culled]);
    assert_eq!(previous_tiers(false, &[], 3), vec![LodTier::Culled; 3]);
    assert_eq!(previous_tiers(false, &cached, 2), vec![LodTier::Mid, LodTier::Beyond]);
}

#[test]
fn segments_split_between_plants_and_overlays() {
    let segs = [(0, 2), (2, 3), (5, 4)];
    assert_eq!(split_segments(&segs, 2), (vec![(0, 2), (2, 3)], vec![(5, 4)]));
    assert_eq!(split_segments(&segs, 7), (segs.to_vec(), vec![]));
    assert_eq!(split_segments(&segs, 0), (vec![], segs.to_vec()));
}

#[test]
fn upload_needs_content_that_fits() {
    assert_eq!(upload_plan(0, 0, 0, 0), (false, false));
    assert_eq!(upload_plan(4, 4, 8, 12), (true, true));
    assert_eq!(upload_plan(MAX_VERTS, MAX_VERTS + 1, MAX_VERTS + 1, 3), (false, false));
    assert_eq!(upload_plan(MAX_VERTS, 1, 0, 1), (true, true));
}

#[test]
fn empty_cache_holds_nothing() {
    let c: PlantCache<[f32; 3], [f32; 2]> = PlantCache::empty(LodTier::Culled);
    assert_eq!(c.tier, LodTier::Culled);
    assert_eq!(c.requested_tier, LodTier::Culled);
    assert!(c.line_geo.vertices.is_empty() && c.line_geo.segments.is_empty());
    assert!(c.mesh_geo.indices.is_empty() && c.mesh_geo.uvs.is_empty());
}

// ── Thinning and competition ──

fn table(n: usize, pairs: &[(usize, usize)]) -> Vec<Vec<bool>> {
    let mut t = vec![vec![false; n]; n];
    for &(i, j) in pairs {
        t[i][j] = true;
    }
    t
}

#[test]
fn thinning_removes_the_smaller_of_each_overlap() {
    // 0–1 overlap (0 smaller), 1–2 overlap (2 smaller), 3 alone
    let overlap = table(4, &[(0, 1), (1, 2)]);
    let smaller = table(4, &[(0, 1)]);
    assert_eq!(self_thinning(&overlap, &smaller), vec![1, 3]);
}

#[test]
fn thinning_skips_pairs_already_decided() {
    // 0 loses to 1 first, so the 0–2 overlap no longer counts
    let overlap = table(3, &[(0, 1), (0, 2)]);
    let smaller = table(3, &[(0, 1), (0, 2)]);
    assert_eq!(self_thinning(&overlap, &smaller), vec![1, 2]);
}

#[test]
fn thinning_without_overlaps_keeps_everything() {
    let overlap = table(3, &[]);
    assert_eq!(self_thinning(&overlap, &overlap), vec![0, 1, 2]);
    assert_eq!(self_thinning(&vec![], &vec![]), Vec::<usize>::new());
}

#[test]
fn less_tolerant_plant_loses() {
    let overlap = table(3, &[(0, 1), (1, 2)]);
    let tol = [
        PlantType::Capsella.shade_tolerance_percent(),
        PlantType::Fern.shade_tolerance_percent(),
        PlantType::Tree.shade_tolerance_percent(),
    ];
    let marks = competition_marks(&overlap, &tol, &mut SeededDice::new(1));
    assert_eq!(marks, vec![true, false, true]);
    assert_eq!(survivors(&marks), vec![1]);
}

#[test]
fn tie_is_settled_by_the_coin() {
    let overlap = table(2, &[(0, 1)]);
    let tol = [50, 50];
    let half = Probability::ratio(1, 2).unwrap();
    let mut seen = [false, false];
    for seed in 0..32 {
        let heads = SeededDice::new(seed).roll(half);
        let marks = competition_marks(&overlap, &tol, &mut SeededDice::new(seed));
        assert_eq!(marks, if heads { vec![true, false] } else { vec![false, true] });
        seen[heads as usize] = true;
    }
    assert_eq!(seen, [true, true]);
}

#[test]
fn competition_without_ties_ignores_the_coin() {
    let overlap = table(4, &[(0, 1), (0, 2), (2, 3), (1, 3)]);
    let tol = [30, 60, 45, 90];
    let half = Probability::ratio(1, 2).unwrap();
    for seed in 0..16 {
        let mut used = SeededDice::new(seed);
        let marks = competition_marks(&overlap, &tol, &mut used);
        assert_eq!(marks, vec![true, true, true, false]);
        // No coin was tossed: the dice go on exactly as fresh ones
        let mut fresh = SeededDice::new(seed);
        let after: Vec<bool> = (0..16).map(|_| used.roll(half)).collect();
        let from_start: Vec<bool> = (0..16).map(|_| fresh.roll(half)).collect();
        assert_eq!(after, from_start);
    }
}

#[test]
fn shade_tolerance_in_hundredths() {
    assert_eq!(PlantType::Fern.shade_tolerance_percent(), 90);
    assert_eq!(PlantType::Tree.shade_tolerance_percent(), 75);
    assert_eq!(PlantType::Capsella.shade_tolerance_percent(), 10);
    assert!(PlantType::ALL.iter().all(|t| t.shade_tolerance_percent() <= 100));
}

// ── Keys ──

fn none() -> KeyResponse {
    KeyResponse { focus: None, scene: SceneKeyEffect::Unchanged, movement: None }
}

#[test]
fn u_toggles_the_panel_and_focus() {
    let mut s = InputState::new();
    let d = WorldDate::default();
    let r = s.handle_key(Key::U, true, 1, d);
    assert_eq!(r.focus, Some(Focus::Ui));
    assert_eq!(s, InputState { show_ui: true, focus: Focus::Ui });
    assert_eq!(s.handle_key(Key::U, false, 1, d), none());
    let r = s.handle_key(Key::U, true, 1, d);
    assert_eq!(r.focus, Some(Focus::World));
    assert_eq!(s, InputState::new());
}

#[test]
fn escape_hands_focus_to_the_panel() {
    let mut s = InputState::new();
    let d = WorldDate::default();
    assert_eq!(s.handle_key(Key::Escape, true, 1, d).focus, Some(Focus::Ui));
    assert_eq!(s, InputState { show_ui: false, focus: Focus::Ui });
    // with the panel focused, arrows do nothing
    assert_eq!(s.handle_key(Key::ArrowRight, true, 1, d), none());
}

#[test]
fn arrows_scale_and_move_the_date() {
    let mut s = InputState::new();
    let d = WorldDate { year: 1, week: 50 };
    assert_eq!(s.handle_key(Key::ArrowUp, true, 4, d).scene, SceneKeyEffect::Grow);
    assert_eq!(s.handle_key(Key::ArrowDown, true, 4, d).scene, SceneKeyEffect::Shrink);
    assert_eq!(
        s.handle_key(Key::ArrowRight, true, 4, d).scene,
        SceneKeyEffect::SetDate(WorldDate { year: 2, week: 2 })
    );
    assert_eq!(
        s.handle_key(Key::ArrowLeft, true, 4, d).scene,
        SceneKeyEffect::SetDate(WorldDate { year: 1, week: 46 })
    );
    assert_eq!(s.handle_key(Key::ArrowLeft, false, 4, d).scene, SceneKeyEffect::Unchanged);
}

#[test]
fn movement_keys_reach_the_camera() {
    let mut s = InputState::new();
    let d = WorldDate::default();
    assert_eq!(s.handle_key(Key::W, true, 1, d).movement, Some(Movement::Forward));
    assert_eq!(s.handle_key(Key::W, false, 1, d).movement, Some(Movement::Forward));
    assert_eq!(s.handle_key(Key::ControlLeft, true, 1, d).movement, Some(Movement::Sprint));
    assert_eq!(s.handle_key(Key::Other, true, 1, d), none());
}
