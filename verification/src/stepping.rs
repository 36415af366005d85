//! Fixed-timestep scheduling of the simulation.
//!
//! The scene advances its simulation in fixed steps of `fixed_dt`.  Frame time
//! is accumulated and converted into whole steps; at most `MAX_STEPS` steps
//! run per frame, and when that cap is hit the backlog is dropped so the
//! simulation never spirals behind.  While paused, frame time is ignored and
//! only the steps queued with `step` run.  Durations are counted in
//! nanoseconds.

use vstd::prelude::*;

verus! {

/// Simulation rate of the scenes, in steps per second.
pub const SIM_HZ: u64 = 120;

/// Most fixed steps run for one frame.
pub const MAX_STEPS: u32 = 8;

/// Nanoseconds in the longest duration std can hold (`Duration::MAX`).
pub const MAX_DURATION_NANOS: u128 = 18_446_744_073_709_551_615_999_999_999;

/// Number of fixed steps that `total` nanoseconds of backlog pay for.
pub open spec fn spec_step_count(total: int, fixed: int) -> int {
    if fixed == 0 || total / fixed >= MAX_STEPS {
        MAX_STEPS as int
    } else {
        total / fixed
    }
}

/// Backlog left after running `spec_step_count(total, fixed)` steps.
pub open spec fn spec_backlog_after(total: int, fixed: int) -> int {
    if spec_step_count(total, fixed) == MAX_STEPS {
        0
    } else {
        total % fixed
    }
}

/// Fixed-step scheduler state of a scene.
pub struct FixedTimestep {
    pub paused: bool,
    pub accumulator_ns: u128,
    pub fixed_dt_ns: u128,
    pub pending_steps: u32,
}

impl FixedTimestep {
    /// The state after a pause toggle.
    pub open spec fn after_toggle(self) -> FixedTimestep {
        FixedTimestep { paused: !self.paused, ..self }
    }

    pub fn new(fixed_dt_ns: u128, paused: bool) -> (s: Self)
        ensures
            s.paused == paused,
            s.accumulator_ns == 0,
            s.fixed_dt_ns == fixed_dt_ns,
            s.pending_steps == 0,
    {
        FixedTimestep { paused, accumulator_ns: 0, fixed_dt_ns, pending_steps: 0 }
    }

    pub fn toggle_pause(&mut self)
        ensures
            *final(self) == old(self).after_toggle(),
    {
        self.paused = !self.paused;
    }

    pub fn paused(&self) -> (b: bool)
        ensures
            b == self.paused,
    {
        self.paused
    }

    /// Queues one step to run on the next paused update.
    pub fn step(&mut self)
        requires
            old(self).pending_steps < u32::MAX,
        ensures
            *final(self) == (FixedTimestep {
                pending_steps: (old(self).pending_steps + 1) as u32,
                ..*old(self)
            }),
    {
        self.pending_steps = self.pending_steps + 1;
    }

    /// Accounts for `dt_ns` of frame time and returns how many fixed steps to
    /// run now.
    pub fn update(&mut self, dt_ns: u128) -> (steps: u32)
        requires
            !old(self).paused ==> old(self).accumulator_ns + dt_ns <= MAX_DURATION_NANOS,
        ensures
            final(self).paused == old(self).paused,
            final(self).fixed_dt_ns == old(self).fixed_dt_ns,
            old(self).paused ==> {
                &&& steps == old(self).pending_steps
                &&& final(self).pending_steps == 0
                &&& final(self).accumulator_ns == old(self).accumulator_ns
            },
            !old(self).paused ==> {
                &&& steps == spec_step_count(
                    old(self).accumulator_ns + dt_ns,
                    old(self).fixed_dt_ns as int,
                )
                &&& final(self).accumulator_ns == spec_backlog_after(
                    old(self).accumulator_ns + dt_ns,
                    old(self).fixed_dt_ns as int,
                )
                &&& final(self).pending_steps == old(self).pending_steps
            },
    {
        if self.paused {
            let steps = self.pending_steps;
            self.pending_steps = 0;
            return steps;
        }
        let total = self.accumulator_ns + dt_ns;
        let fixed = self.fixed_dt_ns;
        let mut acc = total;
        let mut steps: u32 = 0;
        while acc >= fixed && steps < MAX_STEPS
            invariant
                steps <= MAX_STEPS,
                acc + steps * fixed == total,
            decreases MAX_STEPS - steps,
        {
            proof {
                assert((steps + 1) * fixed == steps * fixed + fixed) by (nonlinear_arith);
            }
            acc = acc - fixed;
            steps = steps + 1;
        }
        proof {
            if steps < MAX_STEPS && fixed > 0 {
                assert(acc < fixed);
                vstd::arithmetic::div_mod::lemma_fundamental_div_mod_converse(
                    total as int,
                    fixed as int,
                    steps as int,
                    acc as int,
                );
            }
            if steps == MAX_STEPS && fixed > 0 {
                assert(total >= MAX_STEPS * fixed);
                assert((total as int) / (fixed as int) >= MAX_STEPS) by {
                    vstd::arithmetic::div_mod::lemma_div_is_ordered(
                        (MAX_STEPS * fixed) as int,
                        total as int,
                        fixed as int,
                    );
                    vstd::arithmetic::div_mod::lemma_div_by_multiple(MAX_STEPS as int, fixed as int);
                }
            }
        }
        if steps == MAX_STEPS {
            acc = 0;
        }
        self.accumulator_ns = acc;
        steps
    }
}

/// Law: pausing twice leaves the scheduler as it was.
pub proof fn lemma_toggle_twice(s: FixedTimestep)
    ensures
        s.after_toggle().after_toggle() == s,
{
}

/// Law: while running, an update runs at most `MAX_STEPS` steps; unless that
/// cap is hit, no time is lost (backlog before plus frame time equals backlog
/// after plus the time of the steps run) and the backlog left is less than one
/// step.  When the cap is hit the backlog is cleared.
pub proof fn lemma_update_conserves_time(accumulator: int, dt: int, fixed: int)
    requires
        0 <= accumulator,
        0 <= dt,
        0 <= fixed,
    ensures
        0 <= spec_step_count(accumulator + dt, fixed) <= MAX_STEPS,
        spec_step_count(accumulator + dt, fixed) < MAX_STEPS ==> {
            &&& accumulator + dt == spec_backlog_after(accumulator + dt, fixed) + spec_step_count(
                accumulator + dt,
                fixed,
            ) * fixed
            &&& 0 <= spec_backlog_after(accumulator + dt, fixed) < fixed
        },
        spec_step_count(accumulator + dt, fixed) == MAX_STEPS ==> spec_backlog_after(
            accumulator + dt,
            fixed,
        ) == 0,
{
    let total = accumulator + dt;
    if fixed > 0 {
        vstd::arithmetic::div_mod::lemma_fundamental_div_mod(total, fixed);
        vstd::arithmetic::div_mod::lemma_div_pos_is_pos(total, fixed);
        vstd::arithmetic::div_mod::lemma_mod_bound(total, fixed);
    }
}

/// Law: two running updates that stay under the step cap run, together, as
/// many steps as the whole elapsed time pays for, and leave the same backlog
/// as one update over that time would.
pub proof fn lemma_updates_compose(accumulator: int, dt1: int, dt2: int, fixed: int)
    requires
        0 <= accumulator,
        0 <= dt1,
        0 <= dt2,
        0 < fixed,
        spec_step_count(accumulator + dt1, fixed) < MAX_STEPS,
        spec_step_count(spec_backlog_after(accumulator + dt1, fixed) + dt2, fixed) < MAX_STEPS,
    ensures
        spec_step_count(accumulator + dt1, fixed) + spec_step_count(
            spec_backlog_after(accumulator + dt1, fixed) + dt2,
            fixed,
        ) == (accumulator + dt1 + dt2) / fixed,
        spec_backlog_after(spec_backlog_after(accumulator + dt1, fixed) + dt2, fixed) == (
        accumulator + dt1 + dt2) % fixed,
{
    let t1 = accumulator + dt1;
    let q1 = t1 / fixed;
    let r1 = t1 % fixed;
    vstd::arithmetic::div_mod::lemma_fundamental_div_mod(t1, fixed);
    vstd::arithmetic::div_mod::lemma_mod_bound(t1, fixed);
    let t2 = r1 + dt2;
    let q2 = t2 / fixed;
    let r2 = t2 % fixed;
    vstd::arithmetic::div_mod::lemma_fundamental_div_mod(t2, fixed);
    vstd::arithmetic::div_mod::lemma_mod_bound(t2, fixed);
    assert(t1 + dt2 == (q1 + q2) * fixed + r2) by (nonlinear_arith)
        requires
            t1 == fixed * q1 + r1,
            t2 == fixed * q2 + r2,
            t2 == r1 + dt2,
    ;
    vstd::arithmetic::div_mod::lemma_fundamental_div_mod_converse(t1 + dt2, fixed, q1 + q2, r2);
}

} // verus!
