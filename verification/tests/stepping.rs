use katara::stepping::{FixedTimestep, MAX_STEPS, SIM_HZ};

const FIXED_NS: u128 = 8_333_333;

#[test]
fn running_update_runs_whole_steps_and_keeps_the_rest() {
    let mut t = FixedTimestep::new(FIXED_NS, false);
    let steps = t.update(2 * FIXED_NS + 100);
    assert_eq!(steps, 2);
    assert_eq!(t.accumulator_ns, 100);
}

#[test]
fn running_update_accumulates_short_frames() {
    let mut t = FixedTimestep::new(FIXED_NS, false);
    assert_eq!(t.update(FIXED_NS / 2), 0);
    assert_eq!(t.accumulator_ns, FIXED_NS / 2);
    assert_eq!(t.update(FIXED_NS / 2 + 1), 1);
    assert_eq!(t.accumulator_ns, 0);
}

#[test]
fn step_cap_drops_the_backlog() {
    let mut t = FixedTimestep::new(FIXED_NS, false);
    let steps = t.update(20 * FIXED_NS + 5);
    assert_eq!(steps, MAX_STEPS);
    assert_eq!(t.accumulator_ns, 0);
}

#[test]
fn exactly_eight_steps_also_clears_the_backlog() {
    let mut t = FixedTimestep::new(FIXED_NS, false);
    let steps = t.update(8 * FIXED_NS + 7);
    assert_eq!(steps, 8);
    assert_eq!(t.accumulator_ns, 0);
}

#[test]
fn paused_update_runs_only_queued_steps() {
    let mut t = FixedTimestep::new(FIXED_NS, true);
    t.step();
    t.step();
    t.step();
    assert_eq!(t.update(100 * FIXED_NS), 3);
    assert_eq!(t.pending_steps, 0);
    assert_eq!(t.accumulator_ns, 0);
    assert_eq!(t.update(FIXED_NS), 0);
}

#[test]
fn toggling_twice_restores_the_pause_state() {
    let mut t = FixedTimestep::new(FIXED_NS, true);
    t.toggle_pause();
    assert!(!t.paused());
    t.toggle_pause();
    assert!(t.paused());
}

#[test]
fn zero_fixed_step_hits_the_cap() {
    let mut t = FixedTimestep::new(0, false);
    assert_eq!(t.update(0), MAX_STEPS);
    assert_eq!(t.accumulator_ns, 0);
}

#[test]
fn simulation_rate_is_120_hz() {
    assert_eq!(SIM_HZ, 120);
}

#[test]
fn consecutive_updates_convert_all_time_into_steps() {
    let mut t = FixedTimestep::new(10, false);
    let a = t.update(13);
    let b = t.update(14);
    assert_eq!(a + b, 27 / 10);
    assert_eq!(t.accumulator_ns, 27 % 10);
}
