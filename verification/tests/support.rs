use comp3931::dice::SeededDice;
use comp3931::fnv::FnvHasher;
use comp3931::gui::UiActions;
use comp3931::lod::{tally_tiers, LodTier};
use comp3931::lsystem::{Dice, Probability};
use comp3931::settings::{PlantType, Progress, WorldDate};
use comp3931::state::Focus;
use comp3931::turtle::brackets::{ActionKind, BracketTracker, TurtleStep};
use comp3931::world::plant_seed;
use std::collections::HashSet;
use std::hash::{BuildHasher, Hasher};

// ── FNV-1a ──

#[test]
fn fnv_of_nothing_is_the_offset_basis() {
    assert_eq!(FnvHasher::default().finish(), 0xcbf29ce484222325);
}

#[test]
fn fnv_known_values() {
    let mut h = FnvHasher::default();
    h.write(b"a");
    assert_eq!(h.finish(), 0xaf63dc4c8601ec8c);
    let mut h = FnvHasher::default();
    h.write(b"foobar");
    assert_eq!(h.finish(), 0x85944171f73967e8);
}

#[test]
fn fnv_streaming_matches_single_write() {
    let mut split = FnvHasher::default();
    split.write(b"foo");
    split.write(b"bar");
    let mut whole = FnvHasher::default();
    whole.write(b"foobar");
    assert_eq!(split.finish(), whole.finish());
}

#[test]
fn fnv_build_hasher_keys_a_hash_set() {
    let mut cells: HashSet<(i32, i32, i32), comp3931::fnv::FnvBuildHasher> =
        HashSet::with_hasher(Default::default());
    cells.insert((1, 2, 3));
    cells.insert((1, 2, 3));
    cells.insert((-1, 0, 7));
    assert_eq!(cells.len(), 2);
    assert!(cells.contains(&(-1, 0, 7)));
    let b = comp3931::fnv::FnvBuildHasher::default();
    assert_eq!(b.hash_one(5u64), b.hash_one(5u64));
}

// ── World date ──

#[test]
fn advance_rolls_over_the_year() {
    let d = WorldDate { year: 2, week: 50 };
    assert_eq!(d.advance_weeks(3), WorldDate { year: 3, week: 1 });
    assert_eq!(d.advance_weeks(-51), WorldDate { year: 1, week: 51 });
}

#[test]
fn advance_clamps_at_year_zero() {
    let d = WorldDate { year: 0, week: 5 };
    assert_eq!(d.advance_weeks(-100), WorldDate { year: 0, week: 0 });
}

#[test]
fn advance_in_two_steps_is_advance_in_one() {
    let d = WorldDate { year: 7, week: 13 };
    assert_eq!(d.advance_weeks(40).advance_weeks(30), d.advance_weeks(70));
    assert_eq!(d.advance_weeks(0), d);
}

#[test]
fn advance_normalises_an_overlong_week() {
    let d = WorldDate { year: 1, week: 60 };
    assert_eq!(d.advance_weeks(0), WorldDate { year: 2, week: 8 });
}

// ── Auto progress ──

fn progress(auto: bool, step: u32, max: u32, taken: u32) -> Progress {
    Progress { auto_progress: auto, progress_step: step, max_steps: max, steps_taken: taken }
}

#[test]
fn tick_does_nothing_when_auto_progress_is_off() {
    let mut p = progress(false, 1, 0, 0);
    let mut date = WorldDate::default();
    let mut generation = 4;
    assert_eq!(p.tick(5, &mut date, &mut generation), 0);
    assert_eq!(date, WorldDate::default());
    assert_eq!(generation, 4);
}

#[test]
fn tick_takes_at_least_one_step() {
    let mut p = progress(true, 2, 0, 0);
    let mut date = WorldDate::default();
    let mut generation = 0;
    assert_eq!(p.tick(0, &mut date, &mut generation), 1);
    assert_eq!(date, WorldDate { year: 0, week: 2 });
    assert_eq!(generation, 1);
    assert_eq!(p.steps_taken, 1);
}

#[test]
fn tick_stops_at_the_limit() {
    let mut p = progress(true, 1, 5, 3);
    let mut date = WorldDate { year: 1, week: 0 };
    let mut generation = 9;
    assert_eq!(p.tick(10, &mut date, &mut generation), 2);
    assert_eq!(generation, 10);
    assert_eq!(date, WorldDate { year: 1, week: 2 });
    assert!(!p.auto_progress);
    assert_eq!(p.steps_taken, 0);
}

#[test]
fn tick_past_the_limit_changes_nothing() {
    let mut p = progress(true, 1, 5, 5);
    let mut date = WorldDate { year: 2, week: 7 };
    let mut generation = 3;
    assert_eq!(p.tick(4, &mut date, &mut generation), 0);
    assert_eq!(date, WorldDate { year: 2, week: 7 });
    assert_eq!(generation, 3);
    assert!(p.auto_progress);
}

#[test]
fn tick_steps_follow_the_limit() {
    assert_eq!(progress(false, 1, 0, 0).tick_steps(7), 0);
    assert_eq!(progress(true, 1, 0, 0).tick_steps(0), 1);
    assert_eq!(progress(true, 1, 0, 0).tick_steps(7), 7);
    assert_eq!(progress(true, 1, 10, 8).tick_steps(7), 2);
    assert_eq!(progress(true, 1, 10, 12).tick_steps(7), 0);
}

#[test]
fn reset_steps_clears_the_count() {
    let mut p = progress(true, 1, 0, 9);
    p.reset_steps();
    assert_eq!(p.steps_taken, 0);
}

// ── Brackets and cuts ──

fn run(kinds: &[(ActionKind, bool)]) -> Vec<TurtleStep> {
    let mut t = BracketTracker::new();
    kinds.iter().map(|&(k, b)| t.next(k, b)).collect()
}

#[test]
fn cut_inside_branch_skips_to_pop() {
    let steps = run(&[(ActionKind::Push, false), (ActionKind::Cut, false), (ActionKind::Other, false), (ActionKind::Pop, false)]);
    assert_eq!(steps, vec![TurtleStep::Push, TurtleStep::Skip, TurtleStep::Skip, TurtleStep::Pop]);
}

#[test]
fn cut_at_depth_zero_is_ignored() {
    let steps = run(&[(ActionKind::Cut, false), (ActionKind::Other, false)]);
    assert_eq!(steps, vec![TurtleStep::Skip, TurtleStep::Perform]);
}

#[test]
fn cut_only_affects_enclosing_branch() {
    let steps = run(&[(ActionKind::Push, false), (ActionKind::Cut, false), (ActionKind::Other, false), (ActionKind::Pop, false), (ActionKind::Other, false)]);
    assert_eq!(steps, vec![
        TurtleStep::Push,
        TurtleStep::Skip,
        TurtleStep::Skip,
        TurtleStep::Pop,
        TurtleStep::Perform
    ]);
}

#[test]
fn cut_skips_nested_branches() {
    let steps = run(&[
        (ActionKind::Push, false),
        (ActionKind::Cut, false),
        (ActionKind::Push, false),
        (ActionKind::Branch, false),
        (ActionKind::Pop, false),
        (ActionKind::Other, false),
        (ActionKind::Pop, false),
        (ActionKind::Branch, false),
    ]);
    assert_eq!(steps, vec![
        TurtleStep::Push,
        TurtleStep::Skip,
        TurtleStep::Skip,
        TurtleStep::Skip,
        TurtleStep::Skip,
        TurtleStep::Skip,
        TurtleStep::Pop,
        TurtleStep::Perform
    ]);
}

#[test]
fn blocked_branch_cuts_its_branch_only_inside_one() {
    assert_eq!(run(&[(ActionKind::Branch, true)]), vec![TurtleStep::Perform]);
    let steps = run(&[(ActionKind::Push, false), (ActionKind::Branch, true), (ActionKind::Branch, false), (ActionKind::Pop, false)]);
    assert_eq!(steps, vec![TurtleStep::Push, TurtleStep::Skip, TurtleStep::Skip, TurtleStep::Pop]);
}

#[test]
fn without_cuts_each_action_gets_its_own_step() {
    let steps = run(&[
        (ActionKind::Pop, false),
        (ActionKind::Other, false),
        (ActionKind::Push, false),
        (ActionKind::Branch, false),
        (ActionKind::Push, false),
        (ActionKind::Other, false),
        (ActionKind::Pop, false),
        (ActionKind::Branch, false),
        (ActionKind::Pop, false),
    ]);
    assert_eq!(steps, vec![
        TurtleStep::Pop,
        TurtleStep::Perform,
        TurtleStep::Push,
        TurtleStep::Perform,
        TurtleStep::Push,
        TurtleStep::Perform,
        TurtleStep::Pop,
        TurtleStep::Perform,
        TurtleStep::Pop
    ]);
}

#[test]
fn pop_at_depth_zero_stays_at_zero() {
    let mut t = BracketTracker::new();
    assert_eq!(t.next(ActionKind::Pop, false), TurtleStep::Pop);
    assert_eq!(t.depth(), 0);
    assert!(!t.is_cutting());
}

// ── LOD tallies ──

#[test]
fn tally_counts_each_tier() {
    let (counts, culled) = tally_tiers(&[
        LodTier::Near,
        LodTier::Far,
        LodTier::Culled,
        LodTier::Near,
        LodTier::Beyond,
        LodTier::Culled,
        LodTier::Mid,
    ]);
    assert_eq!(counts, [2, 1, 1, 1]);
    assert_eq!(culled, 2);
}

#[test]
fn tier_order_and_segments() {
    assert!(LodTier::Near < LodTier::Mid && LodTier::Beyond < LodTier::Culled);
    assert_eq!(LodTier::Far.index(), 2);
    assert_eq!(LodTier::Near.cylinder_segments(), 8);
    assert_eq!(LodTier::Mid.cylinder_segments(), 5);
    assert_eq!(LodTier::Far.cylinder_segments(), 3);
    assert_eq!(LodTier::Culled.cylinder_segments(), 0);
}

// ── Seeds and dice ──

#[test]
fn plant_seed_spreads_indices() {
    assert_eq!(plant_seed(7, 0), 7);
    assert_eq!(plant_seed(7, 1), 7u64.wrapping_add(6364136223846793005));
    assert_eq!(plant_seed(u64::MAX, 2), u64::MAX.wrapping_add(6364136223846793005u64.wrapping_mul(2)));
}

#[test]
fn probability_ratio_rejects_invalid() {
    assert!(Probability::ratio(1, 0).is_none());
    assert!(Probability::ratio(3, 2).is_none());
    let p = Probability::ratio(1, 2).unwrap();
    assert_eq!((p.numerator(), p.denominator()), (1, 2));
}

#[test]
fn dice_extremes_are_certain() {
    let mut d = SeededDice::new(42);
    for _ in 0..100 {
        assert!(d.roll(Probability::always()));
        assert!(!d.roll(Probability::never()));
    }
}

#[test]
fn same_seed_same_draws() {
    let half = Probability::ratio(1, 2).unwrap();
    let mut a = SeededDice::new(9);
    let mut b = SeededDice::new(9);
    let da: Vec<bool> = (0..64).map(|_| a.roll(half)).collect();
    let db: Vec<bool> = (0..64).map(|_| b.roll(half)).collect();
    assert_eq!(da, db);
    assert!(da.iter().any(|&x| x) && da.iter().any(|&x| !x));
}

// ── Plain state ──

#[test]
fn plant_types_listed_once_each() {
    assert_eq!(PlantType::ALL.len(), 9);
    for (i, a) in PlantType::ALL.iter().enumerate() {
        for b in &PlantType::ALL[i + 1..] {
            assert_ne!(a, b);
        }
    }
}

#[test]
fn default_ui_actions_request_nothing() {
    let a = UiActions::default();
    assert!(!a.reset_scene && !a.save_scene && !a.scene_dirty && a.new_scene_seed.is_none());
    assert_ne!(Focus::Ui, Focus::World);
}
