//! Plant types, the world calendar and automatic date progression.
use vstd::prelude::*;

verus! {

// ── Plant Types ──

#[derive(Debug, Clone, Copy, PartialEq, Eq, Structural, Hash)]
pub enum PlantType {
    Tree,
    Bush,
    Fern,
    Wildflower,
    Capsella,
    Mint,
    Lychnis,
    Mycelis,
    Carrot,
}

impl PlantType {
    pub const ALL: [PlantType; 9] = [
        PlantType::Tree,
        PlantType::Bush,
        PlantType::Fern,
        PlantType::Wildflower,
        PlantType::Capsella,
        PlantType::Mint,
        PlantType::Lychnis,
        PlantType::Mycelis,
        PlantType::Carrot,
    ];

    /// Shade tolerance in hundredths (0 = needs full sun, 100 = thrives in shade);
    /// higher tolerance wins when plants overlap during succession
    pub open spec fn spec_shade_tolerance_percent(self) -> u32 {
        match self {
            PlantType::Tree => 75,
            PlantType::Bush => 50,
            PlantType::Fern => 90,
            PlantType::Wildflower => 20,
            PlantType::Capsella => 10,
            PlantType::Mint => 45,
            PlantType::Lychnis => 30,
            PlantType::Mycelis => 65,
            PlantType::Carrot => 25,
        }
    }

    pub fn shade_tolerance_percent(self) -> (t: u32)
        ensures
            t == self.spec_shade_tolerance_percent(),
            t <= 100,
    {
        match self {
            PlantType::Tree => 75,
            PlantType::Bush => 50,
            PlantType::Fern => 90,
            PlantType::Wildflower => 20,
            PlantType::Capsella => 10,
            PlantType::Mint => 45,
            PlantType::Lychnis => 30,
            PlantType::Mycelis => 65,
            PlantType::Carrot => 25,
        }
    }
}

// ── Ecosystem kernel ──

#[derive(Debug, Clone, Copy, PartialEq, Eq, Structural)]
pub enum EcosystemKernel {
    Neutral,
    Inhibitory,
    Promotional,
    Mixed,
}

// ── World Date ──

#[derive(Debug, Clone, Copy, PartialEq, Eq, Structural, Default)]
pub struct WorldDate {
    pub year: u32,
    pub week: u32,
}

/// Weeks in a year of the world calendar
pub const WEEKS_PER_YEAR: u32 = 52;

impl WorldDate {
    /// Weeks elapsed since year 0, week 0
    pub open spec fn total_weeks(self) -> int {
        self.year * 52 + self.week
    }

    /// The date `weeks` after this one, clamped at year 0 week 0; the year wraps
    /// modulo 2^32 as the `u32` conversion does
    pub open spec fn spec_advance_weeks(self, weeks: int) -> WorldDate {
        let t = if self.total_weeks() + weeks < 0 { 0 } else { self.total_weeks() + weeks };
        WorldDate { year: (t / 52) as u32, week: (t % 52) as u32 }
    }

    /// Advance by `weeks`, rolling over into the next year as needed
    pub fn advance_weeks(self, weeks: i32) -> (r: Self)
        ensures
            r == self.spec_advance_weeks(weeks as int),
            r.week < 52,
    {
        let total: i64 = self.year as i64 * 52 + self.week as i64 + weeks as i64;
        let total: u64 = if total < 0 { 0 } else { total as u64 };
        WorldDate { year: (total / 52) as u32, week: (total % 52) as u32 }
    }
}

/// Advancing by `a` weeks and then by `b` weeks is advancing by `a + b` weeks, as long
/// as the date neither reaches back before year 0 nor passes the last year a `u32`
/// can count.
pub proof fn lemma_advance_compose(d: WorldDate, a: int, b: int)
    requires
        0 <= d.total_weeks() + a,
        0 <= d.total_weeks() + a + b,
        d.total_weeks() + a < 52 * 0x1_0000_0000,
    ensures
        d.spec_advance_weeks(a).spec_advance_weeks(b) == d.spec_advance_weeks(a + b),
{
    let t = d.total_weeks() + a;
    let m = d.spec_advance_weeks(a);
    assert(m.total_weeks() == t) by (nonlinear_arith)
        requires
            0 <= t < 52 * 0x1_0000_0000,
            m.year == (t / 52) as u32,
            m.week == (t % 52) as u32,
            m.total_weeks() == m.year * 52 + m.week,
    {
        assert(0 <= t / 52 < 0x1_0000_0000);
        assert(t == (t / 52) * 52 + t % 52);
    }
}

/// Advancing a date by `weeks` moves its week count by exactly `weeks`, the week
/// staying below 52, as long as the date stays between year 0 and the last year a
/// `u32` counts; a date moved back before year 0 stops at year 0, week 0.
pub proof fn lemma_advance_counts_weeks(d: WorldDate, weeks: int)
    ensures
        0 <= d.total_weeks() + weeks < 52 * 0x1_0000_0000 ==> d.spec_advance_weeks(weeks).total_weeks() == d.total_weeks()
            + weeks && d.spec_advance_weeks(weeks).week < 52,
        d.total_weeks() + weeks < 0 ==> d.spec_advance_weeks(weeks) == (WorldDate { year: 0, week: 0 }),
{
    let t = d.total_weeks() + weeks;
    if 0 <= t < 52 * 0x1_0000_0000 {
        let m = d.spec_advance_weeks(weeks);
        assert(m.total_weeks() == t && m.week < 52) by (nonlinear_arith)
            requires
                0 <= t < 52 * 0x1_0000_0000,
                m.year == (t / 52) as u32,
                m.week == (t % 52) as u32,
                m.total_weeks() == m.year * 52 + m.week,
        {
            assert(0 <= t / 52 < 0x1_0000_0000);
            assert(t == (t / 52) * 52 + t % 52);
        }
    }
}

/// A date whose week is in range is the date it counts: advancing it by zero weeks
/// leaves it unchanged.
pub proof fn lemma_advance_zero(d: WorldDate)
    requires
        d.week < 52,
    ensures
        d.spec_advance_weeks(0) == d,
{
    let t = d.total_weeks();
    assert(t / 52 == d.year && t % 52 == d.week) by (nonlinear_arith)
        requires
            t == d.year * 52 + d.week,
            0 <= d.week < 52,
            0 <= d.year,
    ;
}

// ── Automatic date progression ──

/// The counters that drive automatic date progression
#[derive(Debug, Clone, Copy)]
pub struct Progress {
    /// Automatically advance the scene date each update tick
    pub auto_progress: bool,
    /// Weeks per step — also used by the arrow-key shortcuts
    pub progress_step: u32,
    /// Stop auto-progress after this many steps (0 = no limit)
    pub max_steps: u32,
    /// Steps taken since last `reset_steps()`
    pub steps_taken: u32,
}

impl Progress {
    /// The steps a tick that asks for `steps` takes: none while auto-progress is off;
    /// no more than the limit leaves when there is one
    pub open spec fn spec_tick_steps(self, steps: u32) -> u32 {
        if !self.auto_progress {
            0
        } else {
            let steps = if steps < 1 { 1 } else { steps };
            if self.max_steps > 0 {
                let left = if self.steps_taken < self.max_steps { self.max_steps - self.steps_taken } else { 0 };
                if steps < left { steps } else { left as u32 }
            } else {
                steps
            }
        }
    }

    /// The steps a tick that asks for `steps` takes (see `tick`)
    pub fn tick_steps(&self, steps: u32) -> (n: u32)
        ensures
            n == self.spec_tick_steps(steps),
    {
        if !self.auto_progress {
            return 0;
        }
        let steps = if steps < 1 { 1 } else { steps };
        if self.max_steps > 0 {
            let left = self.max_steps.saturating_sub(self.steps_taken);
            if steps < left { steps } else { left }
        } else {
            steps
        }
    }

    /// A tick that asks for `steps` steps (at least one is taken) when auto-progress is
    /// enabled: advances the scene's `date` by that many steps of `progress_step` weeks,
    /// bumps the scene's `generation` so that it is rebuilt, counts the steps, and
    /// switches auto-progress off (resetting the count) once `max_steps > 0` is
    /// reached. Returns the number of steps actually taken (0 if none).
    pub fn tick(&mut self, steps: u32, date: &mut WorldDate, generation: &mut u64) -> (actual: u32)
        requires
            old(self).spec_tick_steps(steps) * old(self).progress_step <= u32::MAX,
            old(self).steps_taken + old(self).spec_tick_steps(steps) <= u32::MAX,
            old(self).spec_tick_steps(steps) > 0 ==> *old(generation) < u64::MAX,
        ensures
            actual == old(self).spec_tick_steps(steps),
            actual == 0 ==> *final(self) == *old(self) && *final(date) == *old(date),
            *final(generation) == if actual > 0 { *old(generation) + 1 } else { *old(generation) as int },
            actual > 0 ==> *final(date) == old(date).spec_advance_weeks(
                ((actual * old(self).progress_step) as u32) as i32 as int,
            ),
            final(self).progress_step == old(self).progress_step,
            final(self).max_steps == old(self).max_steps,
            actual > 0 ==> {
                let taken = old(self).steps_taken + actual;
                if old(self).max_steps > 0 && taken >= old(self).max_steps {
                    !final(self).auto_progress && final(self).steps_taken == 0
                } else {
                    final(self).auto_progress == old(self).auto_progress && final(self).steps_taken == taken
                }
            },
    {
        let actual = self.tick_steps(steps);
        if actual > 0 {
            let advance = (actual * self.progress_step) as i32;
            *date = date.advance_weeks(advance);
            *generation = *generation + 1;
            self.steps_taken = self.steps_taken + actual;

            if self.max_steps > 0 && self.steps_taken >= self.max_steps {
                self.auto_progress = false;
                self.steps_taken = 0;
            }
        }
        actual
    }

    pub fn reset_steps(&mut self)
        ensures
            final(self).steps_taken == 0,
            final(self).auto_progress == old(self).auto_progress,
            final(self).progress_step == old(self).progress_step,
            final(self).max_steps == old(self).max_steps,
    {
        self.steps_taken = 0;
    }
}

} // verus!
