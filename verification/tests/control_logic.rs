use optimal_control::bangbang::{bangbang_select, SwitchLog, SwitchingSign};
use optimal_control::dynamics::rollout;
use optimal_control::hjb::{control_stencil, interpolation_cell, solve_stencil};

#[test]
fn rollout_returns_one_more_state_than_steps() {
    let (states, controls) = rollout(0.0f64, 5, |_x: &f64, _k: usize| 1.0f64, |x: &f64, u: &f64| x + 0.1 * u);
    assert_eq!(states.len(), 6);
    assert_eq!(controls.len(), 5);
    assert_eq!(states[0], 0.0);
    assert!((states[5] - 0.5).abs() < 1e-10);
}

#[test]
fn rollout_feeds_state_and_index_to_the_control() {
    let (states, controls) = rollout(10i64, 3, |x: &i64, k: usize| -x + k as i64, |x: &i64, u: &i64| x + u);
    assert_eq!(controls, vec![-10, 1, 1]);
    assert_eq!(states, vec![10, 0, 1, 2]);
}

#[test]
fn rollout_with_no_steps_keeps_the_start() {
    let (states, controls) = rollout(3u8, 0, |_x: &u8, _k: usize| 0u8, |x: &u8, _u: &u8| *x);
    assert_eq!(states, vec![3]);
    assert!(controls.is_empty());
}

#[test]
fn interpolation_cell_inside_grid() {
    let c = interpolation_cell(3, 7, 10, 20);
    assert_eq!((c.k, c.i, c.k1, c.i1), (3, 7, 4, 8));
}

#[test]
fn interpolation_cell_clamps_at_the_edges() {
    let c = interpolation_cell(50, 50, 10, 20);
    assert_eq!((c.k, c.i, c.k1, c.i1), (10, 18, 10, 19));
    let c = interpolation_cell(9, 0, 10, 2);
    assert_eq!((c.k, c.i, c.k1, c.i1), (9, 0, 10, 1));
}

#[test]
fn solve_stencil_is_one_sided_at_the_ends() {
    let s = solve_stencil(0, 5);
    assert_eq!((s.upper, s.lower, s.central), (1, 0, false));
    let s = solve_stencil(4, 5);
    assert_eq!((s.upper, s.lower, s.central), (4, 3, false));
    let s = solve_stencil(2, 5);
    assert_eq!((s.upper, s.lower, s.central), (3, 1, true));
}

#[test]
fn control_stencil_is_one_sided_in_the_last_cell() {
    let s = control_stencil(0, 5);
    assert_eq!((s.upper, s.lower, s.central), (1, 0, false));
    let s = control_stencil(3, 5);
    assert_eq!((s.upper, s.lower, s.central), (4, 3, false));
    let s = control_stencil(2, 5);
    assert_eq!((s.upper, s.lower, s.central), (3, 1, true));
}

#[test]
fn bangbang_select_follows_the_switching_sign() {
    assert_eq!(bangbang_select(SwitchingSign::Negative, -1.0, 1.0, 0.0), 1.0);
    assert_eq!(bangbang_select(SwitchingSign::Positive, -1.0, 1.0, 0.0), -1.0);
    assert_eq!(bangbang_select(SwitchingSign::Singular, -1.0, 1.0, 0.0), 0.0);
}

#[test]
fn switch_log_keeps_the_first_crossing_time() {
    let mut log = SwitchLog::new();
    assert!(!log.record_step(0.1, false));
    assert!(!log.switched());
    assert!(log.record_step(0.2, true));
    assert!(log.record_step(0.3, false));
    assert!(log.record_step(0.4, true));
    assert!(log.switched());
    assert_eq!(log.into_times(), vec![0.2]);
}

#[test]
fn switch_log_without_crossing_records_nothing() {
    let mut log = SwitchLog::new();
    assert!(!log.record_step(0.1, false));
    assert!(!log.record_step(0.2, false));
    assert!(log.into_times().is_empty());
}

use optimal_control::hjb::backward_sweep;
use optimal_control::selection::first_best;

#[test]
fn backward_sweep_sets_the_terminal_level() {
    let values = backward_sweep(3, 0, |i: usize| (i * 10) as i64, |_i: usize, _u: i64, _l: i64, _c: bool, v: i64| v);
    assert_eq!(values, vec![0, 10, 20]);
}

#[test]
fn backward_sweep_computes_earlier_levels_from_later_ones() {
    // Each earlier value records its stencil: here + upper - lower, plus 100 when central.
    let values = backward_sweep(3, 2, |i: usize| i as i64, |_i: usize, u: i64, l: i64, c: bool, v: i64| {
        v + u - l + if c { 100 } else { 0 }
    });
    assert_eq!(values.len(), 9);
    // Level 2: [0, 1, 2]; level 1: [0+1-0, 1+2-0+100, 2+2-1] = [1, 103, 3]
    assert_eq!(&values[6..9], &[0, 1, 2]);
    assert_eq!(&values[3..6], &[1, 103, 3]);
    // Level 0 from [1, 103, 3]: [1+103-1, 103+3-1+100, 3+3-103]
    assert_eq!(&values[0..3], &[103, 205, -97]);
}

#[test]
fn first_best_picks_the_first_smallest() {
    let costs = [3.0, 1.0, 2.0, 1.0];
    let (idx, best) = first_best(&costs, f64::INFINITY, |c: f64, b: f64| c < b);
    assert_eq!(idx, Some(1));
    assert_eq!(best, 1.0);
}

#[test]
fn first_best_keeps_init_when_nothing_beats_it() {
    let (idx, best) = first_best(&[5, 6], 4, |c: i32, b: i32| c < b);
    assert_eq!(idx, None);
    assert_eq!(best, 4);
    let none: [f64; 0] = [];
    let (idx, best) = first_best(&none, f64::INFINITY, |c: f64, b: f64| c < b);
    assert_eq!(idx, None);
    assert_eq!(best, f64::INFINITY);
}

#[test]
fn first_best_skips_nan_costs() {
    let costs = [f64::NAN, 2.0, f64::NAN];
    let (idx, best) = first_best(&costs, f64::INFINITY, |c: f64, b: f64| c < b);
    assert_eq!(idx, Some(1));
    assert_eq!(best, 2.0);
}

use optimal_control::iteration::{iterate, Outcome, Step};

#[test]
fn iterate_stops_at_the_first_stopping_step() {
    let out = iterate(1u64, 100, |s: u64, _k: usize| {
        if s >= 20 { Step::Stop(s * 10) } else { Step::Continue(s * 3) }
    });
    match out {
        Outcome::Stopped { result, iterations } => {
            // 1, 3, 9, 27: the step on 27 stops, at iteration 3.
            assert_eq!(result, 270);
            assert_eq!(iterations, 3);
        }
        Outcome::Exhausted { .. } => panic!("expected a stop"),
    }
}

#[test]
fn iterate_hands_back_the_last_state_when_the_budget_runs_out() {
    let out = iterate(0i32, 5, |s: i32, k: usize| -> Step<i32, ()> { Step::Continue(s + k as i32) });
    match out {
        Outcome::Exhausted { state } => assert_eq!(state, 0 + 1 + 2 + 3 + 4),
        Outcome::Stopped { .. } => panic!("expected exhaustion"),
    }
}

#[test]
fn iterate_with_no_budget_keeps_the_start() {
    let out = iterate(7i32, 0, |_s: i32, _k: usize| -> Step<i32, ()> { Step::Stop(()) });
    assert!(matches!(out, Outcome::Exhausted { state: 7 }));
}

use optimal_control::bangbang::{signs_differ, SampleSign, SignScan};

#[test]
fn sign_scan_reports_each_change_of_sign() {
    let mut scan = SignScan::new(SampleSign::Positive);
    assert!(!scan.observe(SampleSign::Positive));
    assert!(scan.observe(SampleSign::Negative));
    assert!(!scan.observe(SampleSign::Negative));
    assert!(!scan.observe(SampleSign::Zero));
    assert!(scan.observe(SampleSign::Positive));
    assert_eq!(scan.previous, SampleSign::Positive);
}

#[test]
fn sign_scan_starts_positive_from_zero() {
    let mut scan = SignScan::new(SampleSign::Zero);
    assert_eq!(scan.previous, SampleSign::Positive);
    assert!(scan.observe(SampleSign::Negative));
}

#[test]
fn undefined_signs_always_differ() {
    assert!(signs_differ(SampleSign::Undefined, SampleSign::Undefined));
    assert!(signs_differ(SampleSign::Undefined, SampleSign::Positive));
    assert!(!signs_differ(SampleSign::Negative, SampleSign::Negative));
    let mut scan = SignScan::new(SampleSign::Undefined);
    assert!(scan.observe(SampleSign::Undefined));
}

#[test]
fn first_best_keeps_the_first_of_tied_costs() {
    let (idx, best) = first_best(&[8.0, 8.0, 24.0], f64::INFINITY, |c: f64, b: f64| c < b);
    assert_eq!(idx, Some(0));
    assert_eq!(best, 8.0);
}
