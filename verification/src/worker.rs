//! The per-worker routine as an explicit state machine.
//!
//! Each worker moves through warmup, the readiness barrier, measurement and
//! the drain barrier.  One call to [`step_worker`] is one visit by a
//! scheduler: it performs at most one unit operation (advancing the logical
//! clock by the operation cost) and then the phase logic.  The machine
//! guarantees that draining is reached even after a failed operation, so no
//! sibling is left stranded at a barrier.
//!
//! The throughput-counting contract: an operation is counted if and only if
//! it completed strictly before the measurement deadline; the operation in
//! progress when the deadline is crossed is not counted.

use vstd::prelude::*;
use crate::barrier::Barriers;
use crate::value::{Lambda, Value, apply, spec_apply};

verus! {

broadcast use vstd::arithmetic::mul::group_mul_basics;

/// The phases of the worker routine, in order.
#[derive(Debug, Copy, Clone, PartialEq, Eq, Structural)]
pub enum Phase {
    /// Performing the unit operation until the warmup time has elapsed.
    WarmingUp,
    /// Warmup finished and announced; operating until every peer is ready.
    AwaitingPeers,
    /// Counting operations until the measurement deadline.
    Measuring,
    /// Measurement finished and announced; operating until every peer is done.
    Draining,
    /// Past the drain barrier; the worker's count is final.
    Done,
}

/// The experiment parameters shared by all workers.
#[derive(Debug, Copy, Clone)]
pub struct BenchConfig {
    /// How many workers run concurrently.
    pub workers: usize,
    /// Warmup time before the readiness barrier, in nanoseconds.
    pub warmup_ns: u128,
    /// Length of the measurement window, in nanoseconds.
    pub duration_ns: u128,
    /// Cost of one unit operation on the logical clock, in nanoseconds.
    pub op_cost_ns: u64,
}

impl BenchConfig {
    pub open spec fn wf(&self) -> bool {
        &&& self.workers >= 1
        &&& self.op_cost_ns >= 1
        &&& self.duration_ns / (self.op_cost_ns as u128) < usize::MAX as u128
    }
}

/// The state of one worker between scheduler visits.
#[derive(Debug, Copy, Clone)]
pub struct WorkerState {
    pub phase: Phase,
    /// When this worker's warmup began.
    pub started_at: u128,
    /// When this worker's measurement window began (meaningful from
    /// `Measuring` on).
    pub measure_start: u128,
    /// Operations that completed strictly before the deadline.
    pub iters: usize,
    /// Whether this worker has decremented the readiness counter.
    pub arrived_ready: bool,
    /// Whether this worker has decremented the drain counter.
    pub arrived_done: bool,
    /// Whether a unit operation of this worker failed.
    pub failed: bool,
}

impl WorkerState {
    /// A worker that has done nothing yet: warming up from clock zero.
    pub open spec fn spec_fresh() -> WorkerState {
        WorkerState {
            phase: Phase::WarmingUp,
            started_at: 0,
            measure_start: 0,
            iters: 0,
            arrived_ready: false,
            arrived_done: false,
            failed: false,
        }
    }

    /// A fresh worker, warming up from `now`.
    pub fn new(now: u128) -> (w: WorkerState)
        ensures
            w == (WorkerState {
                phase: Phase::WarmingUp,
                started_at: now,
                measure_start: 0,
                iters: 0,
                arrived_ready: false,
                arrived_done: false,
                failed: false,
            }),
    {
        WorkerState {
            phase: Phase::WarmingUp,
            started_at: now,
            measure_start: 0,
            iters: 0,
            arrived_ready: false,
            arrived_done: false,
            failed: false,
        }
    }

    /// Each phase fixes which barriers the worker has passed.
    pub open spec fn wf(&self) -> bool {
        match self.phase {
            Phase::WarmingUp => !self.arrived_ready && !self.arrived_done && self.iters == 0
                && !self.failed,
            Phase::AwaitingPeers => self.arrived_ready && !self.arrived_done && self.iters == 0
                && !self.failed,
            Phase::Measuring => self.arrived_ready && !self.arrived_done && !self.failed,
            Phase::Draining => self.arrived_ready && self.arrived_done,
            Phase::Done => self.arrived_ready && self.arrived_done,
        }
    }

    /// The clock-dependent part of the worker invariant: phase start times do
    /// not lie in the future, and the count never exceeds what the elapsed
    /// measurement time allows.
    pub open spec fn wf_timing(&self, clock: u128, cfg: BenchConfig) -> bool {
        &&& self.started_at <= clock
        &&& (self.phase is Measuring ==> self.measure_start <= clock
            && self.iters as int * cfg.op_cost_ns as int <= clock - self.measure_start)
        &&& self.iters as int * cfg.op_cost_ns as int <= cfg.duration_ns as int
    }

    /// A worker that has not yet passed a barrier is still counted in it.
    pub open spec fn consistent_with(&self, b: Barriers) -> bool {
        &&& (!self.arrived_ready ==> b.not_ready >= 1)
        &&& (!self.arrived_done ==> b.not_done >= 1)
    }
}

/// What one scheduler visit does to the worker, the barriers, and the logical
/// clock.  `op_ok` is whether the unit operation, if one is performed,
/// succeeds.
pub open spec fn spec_step(
    w: WorkerState,
    b: Barriers,
    clock: u128,
    op_ok: bool,
    cfg: BenchConfig,
) -> (WorkerState, Barriers, u128) {
    let c = cfg.op_cost_ns as u128;
    match w.phase {
        Phase::WarmingUp => {
            if clock - w.started_at < cfg.warmup_ns {
                let clock2 = (clock + c) as u128;
                if op_ok {
                    (w, b, clock2)
                } else {
                    (
                        (WorkerState {
                            phase: Phase::Draining,
                            arrived_ready: true,
                            arrived_done: true,
                            failed: true,
                            ..w
                        }),
                        (Barriers {
                            not_ready: (b.not_ready - 1) as usize,
                            not_done: (b.not_done - 1) as usize,
                        }),
                        clock2,
                    )
                }
            } else {
                (
                    (WorkerState { phase: Phase::AwaitingPeers, arrived_ready: true, ..w }),
                    (Barriers { not_ready: (b.not_ready - 1) as usize, ..b }),
                    clock,
                )
            }
        },
        Phase::AwaitingPeers => {
            if b.not_ready == 0 {
                ((WorkerState { phase: Phase::Measuring, measure_start: clock, ..w }), b, clock)
            } else {
                let clock2 = (clock + c) as u128;
                if op_ok {
                    (w, b, clock2)
                } else {
                    (
                        (WorkerState {
                            phase: Phase::Draining,
                            arrived_done: true,
                            failed: true,
                            ..w
                        }),
                        (Barriers { not_done: (b.not_done - 1) as usize, ..b }),
                        clock2,
                    )
                }
            }
        },
        Phase::Measuring => {
            let clock2 = (clock + c) as u128;
            if !op_ok {
                (
                    (WorkerState { phase: Phase::Draining, arrived_done: true, failed: true, ..w }),
                    (Barriers { not_done: (b.not_done - 1) as usize, ..b }),
                    clock2,
                )
            } else if clock2 - w.measure_start < cfg.duration_ns {
                ((WorkerState { iters: (w.iters + 1) as usize, ..w }), b, clock2)
            } else {
                (
                    (WorkerState { phase: Phase::Draining, arrived_done: true, ..w }),
                    (Barriers { not_done: (b.not_done - 1) as usize, ..b }),
                    clock2,
                )
            }
        },
        Phase::Draining => {
            if b.not_done == 0 {
                ((WorkerState { phase: Phase::Done, ..w }), b, clock)
            } else {
                let clock2 = (clock + c) as u128;
                if op_ok {
                    (w, b, clock2)
                } else {
                    ((WorkerState { failed: true, ..w }), b, clock2)
                }
            }
        },
        Phase::Done => (w, b, clock),
    }
}

/// One scheduler visit: perform at most one unit operation (applying
/// `program` to `arg` and discarding the result) and the phase logic.
pub fn step_worker(
    w: WorkerState,
    b: &mut Barriers,
    clock: &mut u128,
    cfg: &BenchConfig,
    program: &Lambda,
    arg: &Value,
) -> (w2: WorkerState)
    requires
        cfg.wf(),
        w.wf(),
        w.wf_timing(*old(clock), *cfg),
        w.consistent_with(*old(b)),
        *old(clock) + cfg.op_cost_ns <= u128::MAX,
    ensures
        ({
            let (sw, sb, sc) = spec_step(w, *old(b), *old(clock), spec_apply(*program, *arg)
                is Ok, *cfg);
            w2 == sw && *final(b) == sb && *final(clock) == sc
        }),
{
    let c: u128 = cfg.op_cost_ns as u128;
    match w.phase {
        Phase::WarmingUp => {
            if *clock - w.started_at < cfg.warmup_ns {
                let ok = apply(program, arg).is_ok();
                *clock = *clock + c;
                if ok {
                    w
                } else {
                    b.arrive_ready();
                    b.arrive_done();
                    WorkerState {
                        phase: Phase::Draining,
                        arrived_ready: true,
                        arrived_done: true,
                        failed: true,
                        ..w
                    }
                }
            } else {
                b.arrive_ready();
                WorkerState { phase: Phase::AwaitingPeers, arrived_ready: true, ..w }
            }
        },
        Phase::AwaitingPeers => {
            if b.all_ready() {
                WorkerState { phase: Phase::Measuring, measure_start: *clock, ..w }
            } else {
                let ok = apply(program, arg).is_ok();
                *clock = *clock + c;
                if ok {
                    w
                } else {
                    b.arrive_done();
                    WorkerState { phase: Phase::Draining, arrived_done: true, failed: true, ..w }
                }
            }
        },
        Phase::Measuring => {
            let ok = apply(program, arg).is_ok();
            *clock = *clock + c;
            if !ok {
                b.arrive_done();
                WorkerState { phase: Phase::Draining, arrived_done: true, failed: true, ..w }
            } else if *clock - w.measure_start < cfg.duration_ns {
                proof {
                    assert((w.iters + 1) * cfg.op_cost_ns as int == w.iters * cfg.op_cost_ns as int
                        + cfg.op_cost_ns as int) by (nonlinear_arith);
                    lemma_iters_below_max(
                        w.iters as int,
                        cfg.op_cost_ns as int,
                        cfg.duration_ns as int,
                    );
                }
                WorkerState { iters: w.iters + 1, ..w }
            } else {
                b.arrive_done();
                WorkerState { phase: Phase::Draining, arrived_done: true, ..w }
            }
        },
        Phase::Draining => {
            if b.all_done() {
                WorkerState { phase: Phase::Done, ..w }
            } else {
                let ok = apply(program, arg).is_ok();
                *clock = *clock + c;
                if ok {
                    w
                } else {
                    WorkerState { failed: true, ..w }
                }
            }
        },
        Phase::Done => w,
    }
}

/// A count that stays strictly inside the measurement window is strictly
/// below `usize::MAX`, so incrementing it cannot overflow.
pub(crate) proof fn lemma_iters_below_max(iters: int, cost: int, duration: int)
    requires
        cost >= 1,
        iters >= 0,
        (iters + 1) * cost <= duration,
        duration / cost < usize::MAX as int,
    ensures
        iters + 1 <= usize::MAX as int,
{
    vstd::arithmetic::div_mod::lemma_fundamental_div_mod(duration, cost);
    if iters + 1 > duration / cost {
        assert((iters + 1) * cost >= (duration / cost + 1) * cost) by (nonlinear_arith)
            requires
                cost >= 1,
                iters + 1 >= duration / cost + 1,
        ;
        assert((duration / cost + 1) * cost == (duration / cost) * cost + cost)
            by (nonlinear_arith);
        assert(duration % cost < cost) by {
            vstd::arithmetic::div_mod::lemma_mod_bound(duration, cost);
        }
        assert(cost * (duration / cost) + cost > duration);
        assert(false);
    }
}

/// The clock-dependent worker invariant is stable under letting the clock
/// advance: siblings running on the shared core never invalidate it.
pub proof fn lemma_wf_timing_monotone(w: WorkerState, c1: u128, c2: u128, cfg: BenchConfig)
    requires
        w.wf_timing(c1, cfg),
        c1 <= c2,
    ensures
        w.wf_timing(c2, cfg),
{
}

/// What one visit guarantees: the worker and clock invariants are preserved,
/// barrier arrivals are one-way and mirrored exactly in the counters, no
/// worker starts measuring unless the readiness counter is zero, and none
/// finishes unless the drain counter is zero.
pub proof fn lemma_step_properties(
    w: WorkerState,
    b: Barriers,
    clock: u128,
    op_ok: bool,
    cfg: BenchConfig,
)
    requires
        cfg.wf(),
        w.wf(),
        w.wf_timing(clock, cfg),
        w.consistent_with(b),
        clock + cfg.op_cost_ns <= u128::MAX,
    ensures
        ({
            let (w2, b2, c2) = spec_step(w, b, clock, op_ok, cfg);
            &&& w2.wf()
            &&& w2.wf_timing(c2, cfg)
            &&& clock <= c2 <= clock + cfg.op_cost_ns
            &&& w2.started_at == w.started_at
            &&& (w.arrived_ready ==> w2.arrived_ready)
            &&& (w.arrived_done ==> w2.arrived_done)
            &&& b2.not_ready == b.not_ready - (if !w.arrived_ready && w2.arrived_ready {
                1int
            } else {
                0int
            })
            &&& b2.not_done == b.not_done - (if !w.arrived_done && w2.arrived_done {
                1int
            } else {
                0int
            })
            &&& (w2.phase is Measuring ==> w.phase is Measuring || b.not_ready == 0)
            &&& (w2.phase is Done ==> w.phase is Done || b.not_done == 0)
        }),
{
    match w.phase {
        Phase::Measuring => {
            let c = cfg.op_cost_ns as int;
            assert((w.iters + 1) * c == w.iters * c + c) by (nonlinear_arith);
            if op_ok && (clock + c) - w.measure_start < cfg.duration_ns {
                lemma_iters_below_max(w.iters as int, c, cfg.duration_ns as int);
                assert(w.iters + 1 <= usize::MAX);
                assert(((w.iters + 1) as usize) as int == w.iters + 1);
                let (w2x, b2x, c2x) = spec_step(w, b, clock, op_ok, cfg);
                assert(c2x == clock + c);
                assert(w2x.iters == w.iters + 1);
                assert(w2x.measure_start == w.measure_start);
                assert(w2x.iters as int * c <= c2x - w2x.measure_start);
            }
        },
        _ => {},
    }
}

/// What an embedding scheduler must do next for a worker it drives against
/// real time and observed counter values.
#[derive(Debug, Copy, Clone, PartialEq, Eq, Structural)]
pub enum WorkerAction {
    /// Perform one unit operation, then ask again with the new time.
    Operate,
    /// Decrement the readiness counter, then ask again.
    ArriveReady,
    /// Decrement the drain counter, then ask again.
    ArriveDone,
    /// The routine is over; the worker's count is final.
    Finished,
}

/// The worker routine as a pure decision function for a preemptively
/// scheduled embedding: from the worker's state, the time an operation just
/// completed (or the time of this poll), and the observed counter values, to
/// the next state and the one action the embedding must perform.  It applies
/// the same counting rule as the cooperative machine: an operation is
/// counted exactly when it completed strictly before the deadline.
pub open spec fn spec_step_timed(
    w: WorkerState,
    now_ns: u128,
    ready_zero: bool,
    done_zero: bool,
    cfg: BenchConfig,
) -> (WorkerState, WorkerAction) {
    match w.phase {
        Phase::WarmingUp => {
            if now_ns - w.started_at < cfg.warmup_ns {
                (w, WorkerAction::Operate)
            } else {
                (
                    (WorkerState { phase: Phase::AwaitingPeers, arrived_ready: true, ..w }),
                    WorkerAction::ArriveReady,
                )
            }
        },
        Phase::AwaitingPeers => {
            if !ready_zero {
                (w, WorkerAction::Operate)
            } else {
                (
                    (WorkerState { phase: Phase::Measuring, measure_start: now_ns, ..w }),
                    WorkerAction::Operate,
                )
            }
        },
        Phase::Measuring => {
            if now_ns - w.measure_start < cfg.duration_ns {
                if w.iters < usize::MAX {
                    ((WorkerState { iters: (w.iters + 1) as usize, ..w }), WorkerAction::Operate)
                } else {
                    (w, WorkerAction::Operate)
                }
            } else {
                (
                    (WorkerState { phase: Phase::Draining, arrived_done: true, ..w }),
                    WorkerAction::ArriveDone,
                )
            }
        },
        Phase::Draining => {
            if !done_zero {
                (w, WorkerAction::Operate)
            } else {
                ((WorkerState { phase: Phase::Done, ..w }), WorkerAction::Finished)
            }
        },
        Phase::Done => (w, WorkerAction::Finished),
    }
}

/// One decision of the timed worker routine.  The embedding loop owns the
/// clock and the shared counters; all it may do is perform the action this
/// function names and ask again.
pub fn step_timed(
    w: WorkerState,
    now_ns: u128,
    ready_zero: bool,
    done_zero: bool,
    cfg: &BenchConfig,
) -> (r: (WorkerState, WorkerAction))
    requires
        w.wf(),
        w.started_at <= now_ns,
        w.phase is Measuring ==> w.measure_start <= now_ns,
    ensures
        r == spec_step_timed(w, now_ns, ready_zero, done_zero, *cfg),
        r.0.wf(),
        r.0.started_at == w.started_at,
{
    match w.phase {
        Phase::WarmingUp => {
            if now_ns - w.started_at < cfg.warmup_ns {
                (w, WorkerAction::Operate)
            } else {
                (
                    WorkerState { phase: Phase::AwaitingPeers, arrived_ready: true, ..w },
                    WorkerAction::ArriveReady,
                )
            }
        },
        Phase::AwaitingPeers => {
            if !ready_zero {
                (w, WorkerAction::Operate)
            } else {
                (
                    WorkerState { phase: Phase::Measuring, measure_start: now_ns, ..w },
                    WorkerAction::Operate,
                )
            }
        },
        Phase::Measuring => {
            if now_ns - w.measure_start < cfg.duration_ns {
                if w.iters < usize::MAX {
                    (WorkerState { iters: w.iters + 1, ..w }, WorkerAction::Operate)
                } else {
                    (w, WorkerAction::Operate)
                }
            } else {
                (
                    WorkerState { phase: Phase::Draining, arrived_done: true, ..w },
                    WorkerAction::ArriveDone,
                )
            }
        },
        Phase::Draining => {
            if !done_zero {
                (w, WorkerAction::Operate)
            } else {
                (WorkerState { phase: Phase::Done, ..w }, WorkerAction::Finished)
            }
        },
        Phase::Done => (w, WorkerAction::Finished),
    }
}

/// The timed decision applies the same counting rule as the cooperative
/// machine: observed at the clock value the machine holds after the
/// operation, an operation is counted by one exactly when it is counted by
/// the other, and both cross into draining together.
pub proof fn lemma_counting_rule_uniform(
    w: WorkerState,
    b: Barriers,
    clock: u128,
    cfg: BenchConfig,
)
    requires
        w.phase is Measuring,
        w.iters < usize::MAX,
        clock + cfg.op_cost_ns <= u128::MAX,
    ensures
        ({
            let (w_timed, _) = spec_step_timed(
                w,
                (clock + cfg.op_cost_ns) as u128,
                b.not_ready == 0,
                b.not_done == 0,
                cfg,
            );
            let (w_coop, _, _) = spec_step(w, b, clock, true, cfg);
            w_timed.iters == w_coop.iters && (w_timed.phase is Draining <==> w_coop.phase
                is Draining)
        }),
{
}

/// A failed unit operation never strands the siblings: the worker whose
/// operation failed passes straight to draining, with both of its barrier
/// arrivals made, so every counter it owes is decremented.
pub proof fn lemma_failed_op_still_drains(
    w: WorkerState,
    b: Barriers,
    clock: u128,
    cfg: BenchConfig,
)
    requires
        cfg.wf(),
        w.wf(),
        w.wf_timing(clock, cfg),
        w.consistent_with(b),
        clock + cfg.op_cost_ns <= u128::MAX,
        match w.phase {
            Phase::WarmingUp => clock - w.started_at < cfg.warmup_ns,
            Phase::AwaitingPeers => b.not_ready != 0,
            Phase::Measuring => true,
            Phase::Draining => false,
            Phase::Done => false,
        },
    ensures
        ({
            let (w2, b2, c2) = spec_step(w, b, clock, false, cfg);
            &&& w2.phase is Draining
            &&& w2.arrived_ready
            &&& w2.arrived_done
            &&& w2.failed
        }),
{
}

/// How many operations are counted by a worker whose measurement window is
/// `duration` long and whose operations each take `cost`: the operations that
/// complete strictly before the deadline.
pub open spec fn iters_counted(cost: nat, duration: nat) -> nat
    recommends
        cost >= 1,
{
    if duration == 0 {
        0
    } else {
        (((duration - 1) as int) / (cost as int)) as nat
    }
}

/// Holding the operation cost fixed, a longer measurement window never
/// decreases the measured count.
pub proof fn lemma_iters_counted_monotone(cost: nat, d1: nat, d2: nat)
    requires
        cost >= 1,
        d1 <= d2,
    ensures
        iters_counted(cost, d1) <= iters_counted(cost, d2),
{
    if d1 > 0 {
        vstd::arithmetic::div_mod::lemma_div_is_ordered(
            (d1 - 1) as int,
            (d2 - 1) as int,
            cost as int,
        );
    }
}

} // verus!
