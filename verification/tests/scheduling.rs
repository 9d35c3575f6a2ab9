//! The barrier protocol and the cooperative executor.

use benchmark::barrier::Barriers;
use benchmark::guest::{BenchError, Executor};
use benchmark::value::Lambda;
use benchmark::value::Value;
use benchmark::worker::{step_worker, BenchConfig, Phase, WorkerState};

fn config(workers: usize, warmup_ns: u128, duration_ns: u128) -> BenchConfig {
    BenchConfig { workers, warmup_ns, duration_ns, op_cost_ns: 1000 }
}

#[test]
fn counters_start_at_the_worker_count() {
    let b = Barriers::new(5);
    assert_eq!(b.not_ready, 5);
    assert_eq!(b.not_done, 5);
    assert!(!b.all_ready());
    assert!(!b.all_done());
}

#[test]
fn one_arrival_per_worker_empties_the_counters() {
    let mut b = Barriers::new(3);
    for left in [2usize, 1, 0] {
        b.arrive_ready();
        assert_eq!(b.not_ready, left);
        assert_eq!(b.not_done, 3);
    }
    assert!(b.all_ready());
    for _ in 0..3 {
        b.arrive_done();
    }
    assert!(b.all_done());
}

#[test]
fn single_worker_needs_no_spin_before_measuring() {
    // With one worker and no warmup, its own readiness arrival is the
    // transition that opens the measurement phase: the counter reaches zero
    // after exactly one decrement and the clock never moves while waiting.
    let mut exec = Executor::new(config(1, 0, 10_000), Lambda::AddWords);
    assert_eq!(exec.barriers.not_ready, 1);
    exec.step();
    assert_eq!(exec.workers[0].phase, Phase::AwaitingPeers);
    assert_eq!(exec.barriers.not_ready, 0);
    assert_eq!(exec.clock, 0);
    exec.step();
    assert_eq!(exec.workers[0].phase, Phase::Measuring);
    assert_eq!(exec.clock, 0);
}

#[test]
fn run_leaves_both_counters_at_zero() {
    for workers in [1usize, 2, 3, 8] {
        let mut exec = Executor::new(config(workers, 5_000, 200_000), Lambda::AddWords);
        let counts = exec.run(usize::MAX).expect("a clean run");
        assert_eq!(counts.len(), workers);
        assert_eq!(exec.barriers.not_ready, 0);
        assert_eq!(exec.barriers.not_done, 0);
        assert!(exec.all_done());
    }
}

#[test]
fn run_returns_one_count_per_worker() {
    let mut exec = Executor::new(config(4, 0, 100_000), Lambda::AddWords);
    let counts = exec.run(usize::MAX).expect("a clean run");
    assert_eq!(counts.len(), 4);
    for (i, &c) in counts.iter().enumerate() {
        assert_eq!(c, exec.workers[i].iters);
    }
}

#[test]
fn no_worker_measures_before_all_are_ready() {
    // With a long warmup, stepping part-way must never show a measuring
    // worker while the readiness counter is nonzero.
    let mut exec = Executor::new(config(3, 500_000, 100_000), Lambda::AddWords);
    for _ in 0..10_000 {
        exec.step();
        let measuring = exec.workers.iter().any(|w| w.phase == Phase::Measuring);
        if measuring {
            assert_eq!(exec.barriers.not_ready, 0);
        }
    }
}

#[test]
fn longer_duration_never_decreases_any_count() {
    let short = {
        let mut exec = Executor::new(config(2, 10_000, 300_000), Lambda::AddWords);
        exec.run(usize::MAX).expect("a clean run")
    };
    let long = {
        let mut exec = Executor::new(config(2, 10_000, 600_000), Lambda::AddWords);
        exec.run(usize::MAX).expect("a clean run")
    };
    for i in 0..2 {
        assert!(long[i] >= short[i]);
    }
}

#[test]
fn failed_operation_still_drains_both_barriers() {
    // A misshapen argument makes every unit operation fail.  The worker
    // must still pass through both barriers so no sibling is stranded.
    let cfg = config(1, 10_000, 10_000);
    let mut barriers = Barriers::new(1);
    let mut clock: u128 = 0;
    let w = WorkerState::new(0);
    let bad_arg = Value::Word(0);
    let w = step_worker(w, &mut barriers, &mut clock, &cfg, &Lambda::AddWords, &bad_arg);
    assert_eq!(w.phase, Phase::Draining);
    assert!(w.failed);
    assert!(w.arrived_ready && w.arrived_done);
    assert_eq!(barriers.not_ready, 0);
    assert_eq!(barriers.not_done, 0);
    let w = step_worker(w, &mut barriers, &mut clock, &cfg, &Lambda::AddWords, &bad_arg);
    assert_eq!(w.phase, Phase::Done);
}

#[test]
fn starvation_is_reported_when_the_budget_runs_out() {
    let mut exec = Executor::new(config(2, 0, 1_000_000), Lambda::AddWords);
    assert_eq!(exec.run(5), Err(BenchError::Starved));
    assert!(!exec.all_done());
}
