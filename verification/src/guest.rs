//! The cooperative execution loop of the isolated domain.
//!
//! Logical workers share one execution unit, so they are scheduled
//! cooperatively: the current worker performs unit operations until it has
//! held the core for more than one timeslice since the last yield, then the
//! next worker runs.  Time is a logical clock that advances by the operation
//! cost with every unit operation.  A worker that never yielded would starve
//! its siblings; here every worker yields, and a termination measure proves
//! that every experiment completes.  An embedding that wants a hard cap can
//! still run under an explicit step budget and observe starvation when the
//! budget ends first.

use vstd::prelude::*;
use crate::barrier::Barriers;
use crate::region::{SharedRegion, le_word_value};
use crate::value::{
    ImageError,
    Lambda,
    Value,
    decode_image,
    spec_apply,
    spec_image_error,
    standard_argument,
};
use crate::protocol::{EntryArgs, decode_argv};
use crate::worker::{BenchConfig, Phase, WorkerState, spec_step, step_worker};

verus! {

/// How long one worker may hold the core before it must yield, in
/// nanoseconds.
pub const TIMESLICE_NS: u128 = 50_000_000;

/// Why a run produced no counts.
#[derive(Debug, Copy, Clone, PartialEq, Eq, Structural)]
pub enum BenchError {
    /// A worker's unit operation failed; the run is invalid, but every
    /// worker was still drained through both barriers.
    WorkerFailed,
    /// The run could not finish: its step budget ran out, or the logical
    /// clock would have outrun its 128-bit width.
    Starved,
    /// The requested parameters lie outside what this backend can run.
    Unsupported,
}

/// How many workers of `ws` have not yet passed the readiness barrier.
pub open spec fn count_pending_ready(ws: Seq<WorkerState>) -> nat
    decreases ws.len(),
{
    if ws.len() == 0 {
        0
    } else {
        count_pending_ready(ws.drop_last()) + if ws.last().arrived_ready {
            0nat
        } else {
            1nat
        }
    }
}

/// How many workers of `ws` have not yet passed the drain barrier.
pub open spec fn count_pending_done(ws: Seq<WorkerState>) -> nat
    decreases ws.len(),
{
    if ws.len() == 0 {
        0
    } else {
        count_pending_done(ws.drop_last()) + if ws.last().arrived_done {
            0nat
        } else {
            1nat
        }
    }
}

proof fn lemma_count_pending_update(ws: Seq<WorkerState>, i: int, w: WorkerState)
    requires
        0 <= i < ws.len(),
    ensures
        count_pending_ready(ws.update(i, w)) == count_pending_ready(ws) + (if ws[i].arrived_ready {
            0int
        } else {
            -1int
        }) + (if w.arrived_ready {
            0int
        } else {
            1int
        }),
        count_pending_done(ws.update(i, w)) == count_pending_done(ws) + (if ws[i].arrived_done {
            0int
        } else {
            -1int
        }) + (if w.arrived_done {
            0int
        } else {
            1int
        }),
    decreases ws.len(),
{
    if i == ws.len() - 1 {
        assert(ws.update(i, w).drop_last() =~= ws.drop_last());
    } else {
        assert(ws.update(i, w).drop_last() =~= ws.drop_last().update(i, w));
        lemma_count_pending_update(ws.drop_last(), i, w);
    }
}

proof fn lemma_count_pending_member(ws: Seq<WorkerState>, i: int)
    requires
        0 <= i < ws.len(),
    ensures
        !ws[i].arrived_ready ==> count_pending_ready(ws) >= 1,
        !ws[i].arrived_done ==> count_pending_done(ws) >= 1,
    decreases ws.len(),
{
    if i < ws.len() - 1 {
        lemma_count_pending_member(ws.drop_last(), i);
    }
}

proof fn lemma_count_pending_nonzero_member(ws: Seq<WorkerState>)
    requires
        count_pending_ready(ws) > 0 || count_pending_done(ws) > 0,
    ensures
        count_pending_ready(ws) > 0 ==> exists|i: int|
            0 <= i < ws.len() && !(#[trigger] ws[i]).arrived_ready,
        count_pending_done(ws) > 0 ==> exists|i: int|
            0 <= i < ws.len() && !(#[trigger] ws[i]).arrived_done,
    decreases ws.len(),
{
    if ws.len() > 0 {
        if count_pending_ready(ws) > 0 {
            if !ws.last().arrived_ready {
                assert(!ws[ws.len() - 1].arrived_ready);
            } else {
                lemma_count_pending_nonzero_member(ws.drop_last());
                let i = choose|i: int|
                    0 <= i < ws.drop_last().len() && !(#[trigger] ws.drop_last()[i]).arrived_ready;
                assert(!ws[i].arrived_ready);
            }
        }
        if count_pending_done(ws) > 0 {
            if !ws.last().arrived_done {
                assert(!ws[ws.len() - 1].arrived_done);
            } else {
                lemma_count_pending_nonzero_member(ws.drop_last());
                let i = choose|i: int|
                    0 <= i < ws.drop_last().len() && !(#[trigger] ws.drop_last()[i]).arrived_done;
                assert(!ws[i].arrived_done);
            }
        }
    }
}

proof fn lemma_count_pending_all_arrived(ws: Seq<WorkerState>)
    requires
        forall|i: int| 0 <= i < ws.len() ==> (#[trigger] ws[i]).arrived_ready
            && ws[i].arrived_done,
    ensures
        count_pending_ready(ws) == 0,
        count_pending_done(ws) == 0,
    decreases ws.len(),
{
    if ws.len() > 0 {
        assert(forall|i: int| 0 <= i < ws.drop_last().len() ==> ws.drop_last()[i] == ws[i]);
        lemma_count_pending_all_arrived(ws.drop_last());
    }
}

/// How far along its routine a worker is, counted down: a smaller rank
/// means a later phase.
pub open spec fn phase_rank(p: Phase) -> nat {
    match p {
        Phase::WarmingUp => 4,
        Phase::AwaitingPeers => 3,
        Phase::Measuring => 2,
        Phase::Draining => 1,
        Phase::Done => 0,
    }
}

/// The total phase progress still owed by all workers.
pub open spec fn sum_rank(ws: Seq<WorkerState>) -> nat
    decreases ws.len(),
{
    if ws.len() == 0 {
        0
    } else {
        sum_rank(ws.drop_last()) + phase_rank(ws.last().phase)
    }
}

/// How much clock time still separates one worker from its next timed
/// transition: the warmup time it has left, or the measurement time left
/// before the operation that crosses the deadline.  Workers at a barrier or
/// done have none.
pub open spec fn worker_slack(w: WorkerState, clock: u128, cfg: BenchConfig) -> nat {
    match w.phase {
        Phase::WarmingUp => if w.started_at + cfg.warmup_ns > clock {
            (w.started_at + cfg.warmup_ns - clock) as nat
        } else {
            0nat
        },
        Phase::Measuring => if w.measure_start + cfg.duration_ns > clock + cfg.op_cost_ns {
            (w.measure_start + cfg.duration_ns - clock - cfg.op_cost_ns) as nat
        } else {
            0nat
        },
        _ => 0nat,
    }
}

/// The total timed work still separating the workers from their next
/// transitions.
pub open spec fn sum_slack(ws: Seq<WorkerState>, clock: u128, cfg: BenchConfig) -> nat
    decreases ws.len(),
{
    if ws.len() == 0 {
        0
    } else {
        sum_slack(ws.drop_last(), clock, cfg) + worker_slack(ws.last(), clock, cfg)
    }
}

proof fn lemma_sum_rank_update(ws: Seq<WorkerState>, i: int, w: WorkerState)
    requires
        0 <= i < ws.len(),
    ensures
        sum_rank(ws.update(i, w)) == sum_rank(ws) - phase_rank(ws[i].phase) + phase_rank(
            w.phase,
        ),
    decreases ws.len(),
{
    if i == ws.len() - 1 {
        assert(ws.update(i, w).drop_last() =~= ws.drop_last());
    } else {
        assert(ws.update(i, w).drop_last() =~= ws.drop_last().update(i, w));
        lemma_sum_rank_update(ws.drop_last(), i, w);
    }
}

proof fn lemma_sum_slack_update(
    ws: Seq<WorkerState>,
    i: int,
    w: WorkerState,
    clock: u128,
    cfg: BenchConfig,
)
    requires
        0 <= i < ws.len(),
    ensures
        sum_slack(ws.update(i, w), clock, cfg) == sum_slack(ws, clock, cfg) - worker_slack(
            ws[i],
            clock,
            cfg,
        ) + worker_slack(w, clock, cfg),
    decreases ws.len(),
{
    if i == ws.len() - 1 {
        assert(ws.update(i, w).drop_last() =~= ws.drop_last());
    } else {
        assert(ws.update(i, w).drop_last() =~= ws.drop_last().update(i, w));
        lemma_sum_slack_update(ws.drop_last(), i, w, clock, cfg);
    }
}

proof fn lemma_sum_slack_clock_mono(ws: Seq<WorkerState>, c1: u128, c2: u128, cfg: BenchConfig)
    requires
        c1 <= c2,
    ensures
        sum_slack(ws, c2, cfg) <= sum_slack(ws, c1, cfg),
    decreases ws.len(),
{
    if ws.len() > 0 {
        lemma_sum_slack_clock_mono(ws.drop_last(), c1, c2, cfg);
    }
}

proof fn lemma_sum_slack_clock_strict(ws: Seq<WorkerState>, c1: u128, c2: u128, cfg: BenchConfig)
    requires
        c1 < c2,
        sum_slack(ws, c1, cfg) > 0,
    ensures
        sum_slack(ws, c2, cfg) < sum_slack(ws, c1, cfg),
    decreases ws.len(),
{
    if ws.len() > 0 {
        if sum_slack(ws.drop_last(), c1, cfg) > 0 {
            lemma_sum_slack_clock_strict(ws.drop_last(), c1, c2, cfg);
        } else {
            lemma_sum_slack_clock_mono(ws.drop_last(), c1, c2, cfg);
            assert(worker_slack(ws.last(), c1, cfg) > 0);
            assert(worker_slack(ws.last(), c2, cfg) < worker_slack(ws.last(), c1, cfg));
        }
    }
}

proof fn lemma_sum_slack_pointwise_equal(
    ws1: Seq<WorkerState>,
    ws2: Seq<WorkerState>,
    clock: u128,
    cfg: BenchConfig,
)
    requires
        ws1.len() == ws2.len(),
        forall|i: int|
            0 <= i < ws1.len() ==> worker_slack(#[trigger] ws1[i], clock, cfg) == worker_slack(
                ws2[i],
                clock,
                cfg,
            ),
    ensures
        sum_slack(ws1, clock, cfg) == sum_slack(ws2, clock, cfg),
    decreases ws1.len(),
{
    if ws1.len() > 0 {
        assert(forall|i: int| 0 <= i < ws1.drop_last().len() ==> ws1.drop_last()[i] == ws1[i]);
        assert(forall|i: int| 0 <= i < ws2.drop_last().len() ==> ws2.drop_last()[i] == ws2[i]);
        lemma_sum_slack_pointwise_equal(ws1.drop_last(), ws2.drop_last(), clock, cfg);
        assert(worker_slack(ws1.last(), clock, cfg) == worker_slack(
            ws2[ws1.len() - 1],
            clock,
            cfg,
        ));
    }
}

/// Whether a worker's very next visit makes phase progress without waiting
/// on the clock having advanced further: it is in a timed phase, or it
/// stands at a barrier whose counter has already reached zero.
pub open spec fn actionable(w: WorkerState, b: Barriers) -> bool {
    match w.phase {
        Phase::WarmingUp => true,
        Phase::AwaitingPeers => b.not_ready == 0,
        Phase::Measuring => true,
        Phase::Draining => b.not_done == 0,
        Phase::Done => false,
    }
}

/// The least offset `d0 >= d`, in round-robin order from `start`, of an
/// actionable worker; the worker count when none is actionable.
pub open spec fn scan_actionable(ws: Seq<WorkerState>, b: Barriers, start: int, d: nat) -> nat
    decreases ws.len() - d,
{
    if d >= ws.len() {
        ws.len()
    } else if actionable(ws[(start + d as int) % (ws.len() as int)], b) {
        d
    } else {
        scan_actionable(ws, b, start, d + 1)
    }
}

proof fn lemma_scan_le_witness(ws: Seq<WorkerState>, b: Barriers, start: int, d: nat, d0: nat)
    requires
        d <= d0 < ws.len(),
        actionable(ws[(start + d0 as int) % (ws.len() as int)], b),
    ensures
        scan_actionable(ws, b, start, d) <= d0,
    decreases d0 - d,
{
    if d < d0 && !actionable(ws[(start + d as int) % (ws.len() as int)], b) {
        lemma_scan_le_witness(ws, b, start, d + 1, d0);
    }
}

proof fn lemma_scan_exists(ws: Seq<WorkerState>, b: Barriers, start: int, i: int)
    requires
        0 <= start < ws.len(),
        0 <= i < ws.len(),
        actionable(ws[i], b),
    ensures
        scan_actionable(ws, b, start, 0) < ws.len(),
{
    let n = ws.len() as int;
    let d0: int = if i >= start {
        i - start
    } else {
        i + n - start
    };
    assert((start + d0) % n == i) by {
        if i >= start {
            vstd::arithmetic::div_mod::lemma_small_mod(i as nat, n as nat);
        } else {
            vstd::arithmetic::div_mod::lemma_mod_add_multiples_vanish(i, n);
            vstd::arithmetic::div_mod::lemma_small_mod(i as nat, n as nat);
        }
    }
    lemma_scan_le_witness(ws, b, start, 0, d0 as nat);
}

proof fn lemma_scan_shift(ws: Seq<WorkerState>, b: Barriers, start: int, d: nat)
    requires
        0 <= start < ws.len(),
        1 <= d,
        scan_actionable(ws, b, start, d) < ws.len(),
    ensures
        scan_actionable(ws, b, (start + 1) % (ws.len() as int), (d - 1) as nat)
            <= scan_actionable(ws, b, start, d) - 1,
    decreases ws.len() - d,
{
    let n = ws.len() as int;
    let start2 = (start + 1) % n;
    assert((start2 + (d - 1)) % n == (start + d as int) % n) by {
        vstd::arithmetic::div_mod::lemma_add_mod_noop(start + 1, d as int - 1, n);
        vstd::arithmetic::div_mod::lemma_mod_twice(start + 1, n);
        vstd::arithmetic::div_mod::lemma_add_mod_noop((start + 1) % n, d as int - 1, n);
    }
    if actionable(ws[(start + d as int) % n], b) {
        lemma_scan_le_witness(ws, b, start2, (d - 1) as nat, (d - 1) as nat);
    } else {
        lemma_scan_shift(ws, b, start, d + 1);
        lemma_scan_le_witness_monotone(ws, b, start2, (d - 1) as nat, d);
    }
}

proof fn lemma_scan_ge(ws: Seq<WorkerState>, b: Barriers, start: int, d: nat)
    requires
        d <= ws.len(),
    ensures
        scan_actionable(ws, b, start, d) >= d,
    decreases ws.len() - d,
{
    if d < ws.len() && !actionable(ws[(start + d as int) % (ws.len() as int)], b) {
        lemma_scan_ge(ws, b, start, d + 1);
    }
}

proof fn lemma_scan_le_witness_monotone(
    ws: Seq<WorkerState>,
    b: Barriers,
    start: int,
    d1: nat,
    d2: nat,
)
    requires
        d1 <= d2 <= ws.len(),
    ensures
        scan_actionable(ws, b, start, d1) <= scan_actionable(ws, b, start, d2),
    decreases d2 - d1,
{
    if d1 < d2 {
        if d1 < ws.len() && !actionable(ws[(start + d1 as int) % (ws.len() as int)], b) {
            lemma_scan_le_witness_monotone(ws, b, start, d1 + 1, d2);
        } else {
            lemma_scan_ge(ws, b, start, d2);
        }
    }
}

proof fn lemma_scan_congruent(
    ws1: Seq<WorkerState>,
    b1: Barriers,
    ws2: Seq<WorkerState>,
    b2: Barriers,
    start: int,
    d: nat,
)
    requires
        ws1.len() == ws2.len(),
        forall|i: int|
            0 <= i < ws1.len() ==> actionable(#[trigger] ws1[i], b1) == actionable(ws2[i], b2),
    ensures
        scan_actionable(ws1, b1, start, d) == scan_actionable(ws2, b2, start, d),
    decreases ws1.len() - d,
{
    if d < ws1.len() {
        if !actionable(ws1[(start + d as int) % (ws1.len() as int)], b1) {
            lemma_scan_congruent(ws1, b1, ws2, b2, start, d + 1);
        }
    }
}

/// The executor of one experiment inside the isolated domain: the shared
/// barrier counters, one state per logical worker, and the logical clock.
pub struct Executor {
    pub cfg: BenchConfig,
    /// The callable the image decoded to; every unit operation applies it.
    pub program: Lambda,
    /// The fixed two-leaf argument of every application.
    pub argument: Value,
    pub workers: Vec<WorkerState>,
    pub barriers: Barriers,
    /// The logical clock, in nanoseconds.
    pub clock: u128,
    /// When the core was last handed to another worker.
    pub last_yield: u128,
    /// The worker holding the core.
    pub current: usize,
}

impl Executor {
    /// The executor invariant: the barrier counters count exactly the workers
    /// that have not passed them, every worker is internally consistent, no
    /// worker measures before all are ready, and none finishes before all are
    /// done measuring.
    pub open spec fn wf(&self) -> bool {
        &&& self.cfg.wf()
        &&& self.workers@.len() == self.cfg.workers
        &&& self.barriers.not_ready == count_pending_ready(self.workers@)
        &&& self.barriers.not_done == count_pending_done(self.workers@)
        &&& forall|i: int| 0 <= i < self.workers@.len() ==> (#[trigger] self.workers@[i]).wf()
        &&& forall|i: int| 0 <= i < self.workers@.len() ==> (#[trigger] self.workers@[i]).wf_timing(
            self.clock,
            self.cfg,
        )
        &&& forall|i: int| 0 <= i < self.workers@.len()
            ==> ((#[trigger] self.workers@[i]).phase is Measuring
            ==> self.barriers.not_ready == 0)
        &&& forall|i: int| 0 <= i < self.workers@.len()
            ==> ((#[trigger] self.workers@[i]).phase is Done ==> self.barriers.not_done == 0)
        &&& self.current < self.workers@.len()
        &&& self.last_yield <= self.clock
        &&& self.clock - self.last_yield <= TIMESLICE_NS
        &&& self.argument is Tree
        &&& spec_apply(self.program, self.argument) is Ok
        // The fixed argument always suits the callable, so no unit
        // operation of this executor can fail.
        &&& forall|i: int| 0 <= i < self.workers@.len() ==> !(
        #[trigger] self.workers@[i]).failed
        // A worker that has just entered measurement still holds the core
        // (the timeslice gap above rules a yield out), so its first
        // operation runs before any sibling can move the clock ...
        &&& forall|i: int|
            0 <= i < self.workers@.len() ==> (((#[trigger] self.workers@[i]).phase is Measuring
                && self.workers@[i].iters == 0) ==> self.workers@[i].measure_start
                == self.clock && self.current == i)
        // ... and therefore a measurement window longer than one operation
        // counts at least one operation for every worker that finished.
        &&& forall|i: int|
            0 <= i < self.workers@.len() ==> ((((#[trigger] self.workers@[i]).phase is Draining
                || self.workers@[i].phase is Done) && self.cfg.duration_ns
                > self.cfg.op_cost_ns) ==> self.workers@[i].iters >= 1)
    }

    /// Whether every worker has passed the drain barrier and finished.
    pub open spec fn spec_all_done(&self) -> bool {
        forall|i: int| 0 <= i < self.workers@.len() ==> (#[trigger] self.workers@[i]).phase
            is Done
    }

    /// Whether some worker's unit operation failed.
    pub open spec fn spec_any_failed(&self) -> bool {
        exists|i: int| 0 <= i < self.workers@.len() && (#[trigger] self.workers@[i]).failed
    }

    /// A fresh experiment: all workers warming up from clock zero, both
    /// barrier counters at the worker count.
    pub fn new(cfg: BenchConfig, program: Lambda) -> (e: Executor)
        requires
            cfg.wf(),
        ensures
            e.wf(),
            spec_fresh_executor(e, cfg, program),
            e.cfg == cfg,
            e.program == program,
            e.clock == 0,
            e.barriers.not_ready == cfg.workers,
            e.barriers.not_done == cfg.workers,
            forall|i: int| 0 <= i < cfg.workers ==> (#[trigger] e.workers@[i]).phase
                is WarmingUp,
            forall|i: int| 0 <= i < cfg.workers ==> (#[trigger] e.workers@[i]).iters == 0,
    {
        let mut workers: Vec<WorkerState> = Vec::new();
        let mut i: usize = 0;
        while i < cfg.workers
            invariant
                i <= cfg.workers,
                workers@.len() == i,
                forall|j: int| 0 <= j < i ==> #[trigger] workers@[j] == WorkerState::spec_fresh(),
                count_pending_ready(workers@) == i,
                count_pending_done(workers@) == i,
            decreases cfg.workers - i,
        {
            let w = WorkerState::new(0);
            let ghost before = workers@;
            workers.push(w);
            proof {
                assert(workers@.drop_last() =~= before);
            }
            i = i + 1;
        }
        let arg = standard_argument();
        Executor {
            cfg,
            program,
            argument: arg,
            workers,
            barriers: Barriers::new(cfg.workers),
            clock: 0,
            last_yield: 0,
            current: 0,
        }
    }

    /// One scheduler step: visit the current worker once, then hand the core
    /// to the next worker if the current one is done or its timeslice has
    /// expired.
    pub fn step(&mut self)
        requires
            old(self).wf(),
            old(self).clock + old(self).cfg.op_cost_ns <= u128::MAX,
        ensures
            final(self).wf(),
            final(self).cfg == old(self).cfg,
            final(self).program == old(self).program,
            old(self).clock <= final(self).clock <= old(self).clock + old(self).cfg.op_cost_ns,
            final(self).workers@.len() == old(self).workers@.len(),
            ({
                let (w2, b2, c2) = spec_step(
                    old(self).workers@[old(self).current as int],
                    old(self).barriers,
                    old(self).clock,
                    spec_apply(old(self).program, old(self).argument) is Ok,
                    old(self).cfg,
                );
                let yielded = w2.phase is Done || c2 - old(self).last_yield > TIMESLICE_NS;
                &&& final(self).workers@ == old(self).workers@.update(
                    old(self).current as int,
                    w2,
                )
                &&& final(self).barriers == b2
                &&& final(self).clock == c2
                &&& final(self).last_yield == if yielded {
                    c2
                } else {
                    old(self).last_yield
                }
                &&& final(self).current == if !yielded {
                    old(self).current as int
                } else if old(self).current + 1 == old(self).workers@.len() {
                    0int
                } else {
                    old(self).current + 1
                }
            }),
            final(self).argument == old(self).argument,
            spec_sched_step_rel(*old(self), *final(self)),
    {
        let i: usize = self.current;
        let w: WorkerState = self.workers[i];
        let ghost ws0 = self.workers@;
        let ghost b0 = self.barriers;
        let ghost clock0 = self.clock;
        proof {
            lemma_count_pending_member(ws0, i as int);
        }
        let w2 = step_worker(
            w,
            &mut self.barriers,
            &mut self.clock,
            &self.cfg,
            &self.program,
            &self.argument,
        );
        self.workers[i] = w2;
        proof {
            let ghost op_ok = spec_apply(self.program, self.argument) is Ok;
            lemma_count_pending_update(ws0, i as int, w2);
            crate::worker::lemma_step_properties(w, b0, clock0, op_ok, self.cfg);
            assert forall|j: int| 0 <= j < self.workers@.len() implies (
            #[trigger] self.workers@[j]).wf_timing(self.clock, self.cfg) by {
                if j != i {
                    crate::worker::lemma_wf_timing_monotone(
                        ws0[j],
                        clock0,
                        self.clock,
                        self.cfg,
                    );
                }
            }
        }
        // Hand the core onward when this worker is finished or has held it
        // for more than one timeslice since the last yield.
        let must_yield: bool = matches!(self.workers[i].phase, Phase::Done) || self.clock
            - self.last_yield > TIMESLICE_NS;
        if must_yield {
            self.last_yield = self.clock;
            let next: usize = self.current + 1;
            self.current = if next == self.workers.len() {
                0
            } else {
                next
            };
        }
        proof {
            let c = self.cfg.op_cost_ns as int;
            assert forall|j: int|
                0 <= j < self.workers@.len() && (#[trigger] self.workers@[j]).phase
                    is Measuring && self.workers@[j].iters == 0 implies self.workers@[
                j
            ].measure_start == self.clock && self.current == j by {
                if j != i {
                    assert(old(self).workers@[j] == self.workers@[j]);
                    assert(old(self).current == j);
                    assert(false);
                } else {
                    match w.phase {
                        Phase::AwaitingPeers => {
                            assert(b0.not_ready == 0);
                            assert(self.clock == clock0);
                        },
                        Phase::Measuring => {
                            // A counted operation leaves at least one; an
                            // uncounted one leaves the phase.
                            assert((w.iters + 1) * c == w.iters * c + c) by (nonlinear_arith);
                            if clock0 + c - w.measure_start < self.cfg.duration_ns {
                                crate::worker::lemma_iters_below_max(
                                    w.iters as int,
                                    c,
                                    self.cfg.duration_ns as int,
                                );
                            }
                            assert(false);
                        },
                        _ => {
                            assert(false);
                        },
                    }
                }
            }
            assert forall|j: int|
                0 <= j < self.workers@.len() && ((#[trigger] self.workers@[j]).phase
                    is Draining || self.workers@[j].phase is Done) && self.cfg.duration_ns
                    > self.cfg.op_cost_ns implies self.workers@[j].iters >= 1 by {
                if j != i {
                    assert(old(self).workers@[j] == self.workers@[j]);
                } else if w.phase is Measuring && w.iters == 0 {
                    assert(old(self).workers@[i as int] == w);
                    assert(w.measure_start == clock0);
                }
            }
        }
    }

    /// Whether every worker has finished.
    pub fn all_done(&self) -> (r: bool)
        ensures
            r == self.spec_all_done(),
    {
        let n: usize = self.workers.len();
        let mut i: usize = 0;
        while i < n
            invariant
                i <= n,
                n == self.workers@.len(),
                forall|j: int| 0 <= j < i ==> (#[trigger] self.workers@[j]).phase is Done,
            decreases n - i,
        {
            if !matches!(self.workers[i].phase, Phase::Done) {
                return false;
            }
            i = i + 1;
        }
        true
    }

    /// Whether any worker's unit operation failed.
    pub fn any_failed(&self) -> (r: bool)
        ensures
            r == self.spec_any_failed(),
    {
        let n: usize = self.workers.len();
        let mut i: usize = 0;
        while i < n
            invariant
                i <= n,
                n == self.workers@.len(),
                forall|j: int| 0 <= j < i ==> !(#[trigger] self.workers@[j]).failed,
            decreases n - i,
        {
            if self.workers[i].failed {
                return true;
            }
            i = i + 1;
        }
        false
    }

    /// One count per worker, in spawn order.
    pub fn collect_counts(&self) -> (r: Vec<usize>)
        ensures
            r@.len() == self.workers@.len(),
            forall|i: int|
                #![trigger r@[i]]
                #![trigger self.workers@[i]]
                0 <= i < r@.len() ==> r@[i] == self.workers@[i].iters,
    {
        let n: usize = self.workers.len();
        let mut r: Vec<usize> = Vec::new();
        let mut i: usize = 0;
        while i < n
            invariant
                i <= n,
                n == self.workers@.len(),
                r@.len() == i,
                forall|j: int| 0 <= j < i ==> r@[j] == (#[trigger] self.workers@[j]).iters,
            decreases n - i,
        {
            r.push(self.workers[i].iters);
            i = i + 1;
        }
        r
    }

    /// Drive the experiment to completion within a step budget.
    ///
    /// On completion both barrier counters are zero whether or not an
    /// operation failed: even a failed worker is drained through both
    /// barriers, so no sibling is left stranded.  The counts are returned
    /// only for a clean run; a run with a failed worker is invalid and
    /// reported as such, with no retry.
    pub fn run(&mut self, fuel: usize) -> (r: Result<Vec<usize>, BenchError>)
        requires
            old(self).wf(),
            old(self).clock as int + fuel as int * old(self).cfg.op_cost_ns as int
                <= u128::MAX as int,
        ensures
            final(self).wf(),
            final(self).cfg == old(self).cfg,
            final(self).workers@.len() == old(self).workers@.len(),
            r matches Ok(counts) ==> {
                &&& final(self).spec_all_done()
                &&& !final(self).spec_any_failed()
                &&& final(self).barriers.not_ready == 0
                &&& final(self).barriers.not_done == 0
                &&& counts@.len() == old(self).cfg.workers
                &&& forall|i: int| 0 <= i < counts@.len() ==> counts@[i] == (
                #[trigger] final(self).workers@[i]).iters
                &&& (old(self).cfg.duration_ns > old(self).cfg.op_cost_ns ==> forall|i: int|
                    0 <= i < counts@.len() ==> #[trigger] counts@[i] >= 1)
            },
            r == Err::<Vec<usize>, BenchError>(BenchError::WorkerFailed) ==> {
                &&& final(self).spec_all_done()
                &&& final(self).spec_any_failed()
                &&& final(self).barriers.not_ready == 0
                &&& final(self).barriers.not_done == 0
            },
            r == Err::<Vec<usize>, BenchError>(BenchError::Starved)
                ==> !final(self).spec_all_done(),
            r != Err::<Vec<usize>, BenchError>(BenchError::Unsupported),
            sched_reachable(*old(self), *final(self)),
    {
        let ghost cost = self.cfg.op_cost_ns as int;
        let ghost clock0 = self.clock as int;
        proof {
            lemma_sched_reachable_refl(*self);
        }
        let mut steps: usize = 0;
        while steps < fuel && !self.all_done()
            invariant
                self.wf(),
                self.cfg == old(self).cfg,
                self.workers@.len() == old(self).workers@.len(),
                steps <= fuel,
                self.clock as int <= clock0 + steps as int * cost,
                clock0 + fuel as int * cost <= u128::MAX as int,
                cost == self.cfg.op_cost_ns as int,
                sched_reachable(*old(self), *self),
            decreases fuel - steps,
        {
            proof {
                assert((steps + 1) as int * cost == steps as int * cost + cost)
                    by (nonlinear_arith);
                vstd::arithmetic::mul::lemma_mul_inequality(
                    (steps + 1) as int,
                    fuel as int,
                    cost,
                );
            }
            let ghost before = *self;
            self.step();
            proof {
                lemma_sched_reachable_step(*old(self), before, *self);
            }
            steps = steps + 1;
        }
        if !self.all_done() {
            return Err(BenchError::Starved);
        }
        proof {
            assert forall|i: int| 0 <= i < self.workers@.len() implies (
            #[trigger] self.workers@[i]).arrived_ready && self.workers@[i].arrived_done by {
                assert(self.workers@[i].wf());
            }
            lemma_count_pending_all_arrived(self.workers@);
            assert forall|i: int|
                0 <= i < self.workers@.len() && self.cfg.duration_ns
                    > self.cfg.op_cost_ns implies (#[trigger] self.workers@[i]).iters >= 1 by {
                assert(self.workers@[i].phase is Done);
            }
        }
        if self.any_failed() {
            return Err(BenchError::WorkerFailed);
        }
        Ok(self.collect_counts())
    }

    /// Drive the experiment to completion, with no step budget: the
    /// termination measure proves every experiment finishes.  The one
    /// impossibility left is a logical clock that would outrun its 128-bit
    /// width, which is reported as starvation.
    pub fn run_to_completion(&mut self) -> (r: Result<Vec<usize>, BenchError>)
        requires
            old(self).wf(),
        ensures
            final(self).wf(),
            final(self).cfg == old(self).cfg,
            final(self).workers@.len() == old(self).workers@.len(),
            r matches Ok(counts) ==> {
                &&& final(self).spec_all_done()
                &&& !final(self).spec_any_failed()
                &&& final(self).barriers.not_ready == 0
                &&& final(self).barriers.not_done == 0
                &&& counts@.len() == old(self).cfg.workers
                &&& forall|i: int| 0 <= i < counts@.len() ==> counts@[i] == (
                #[trigger] final(self).workers@[i]).iters
                &&& (old(self).cfg.duration_ns > old(self).cfg.op_cost_ns ==> forall|i: int|
                    0 <= i < counts@.len() ==> #[trigger] counts@[i] >= 1)
            },
            r == Err::<Vec<usize>, BenchError>(BenchError::WorkerFailed) ==> {
                &&& final(self).spec_all_done()
                &&& final(self).spec_any_failed()
                &&& final(self).barriers.not_ready == 0
                &&& final(self).barriers.not_done == 0
            },
            r == Err::<Vec<usize>, BenchError>(BenchError::Starved) ==> final(self).clock as int
                + final(self).cfg.op_cost_ns as int > u128::MAX as int
                && !final(self).spec_all_done(),
            r != Err::<Vec<usize>, BenchError>(BenchError::Unsupported),
            sched_reachable(*old(self), *final(self)),
    {
        proof {
            lemma_sched_reachable_refl(*self);
        }
        loop
            invariant
                self.wf(),
                self.cfg == old(self).cfg,
                self.workers@.len() == old(self).workers@.len(),
                sched_reachable(*old(self), *self),
            ensures
                self.wf(),
                self.cfg == old(self).cfg,
                self.workers@.len() == old(self).workers@.len(),
                self.spec_all_done(),
                sched_reachable(*old(self), *self),
            decreases
                sum_rank(self.workers@),
                sum_slack(self.workers@, self.clock, self.cfg),
                scan_actionable(self.workers@, self.barriers, self.current as int, 0),
                yield_budget(self.last_yield, self.clock, self.cfg),
        {
            if self.all_done() {
                break ;
            }
            if self.clock > u128::MAX - (self.cfg.op_cost_ns as u128) {
                return Err(BenchError::Starved);
            }
            proof {
                lemma_sched_step_decreases(*self);
            }
            let ghost before = *self;
            self.step();
            proof {
                lemma_sched_reachable_step(*old(self), before, *self);
            }
        }
        proof {
            assert forall|i: int| 0 <= i < self.workers@.len() implies (
            #[trigger] self.workers@[i]).arrived_ready && self.workers@[i].arrived_done by {
                assert(self.workers@[i].wf());
            }
            lemma_count_pending_all_arrived(self.workers@);
            assert forall|i: int|
                0 <= i < self.workers@.len() && self.cfg.duration_ns
                    > self.cfg.op_cost_ns implies (#[trigger] self.workers@[i]).iters >= 1 by {
                assert(self.workers@[i].phase is Done);
            }
        }
        if self.any_failed() {
            return Err(BenchError::WorkerFailed);
        }
        Ok(self.collect_counts())
    }
}

/// The barriers never wedge.  As long as some worker has not finished, some
/// worker can act at its very next visit without waiting on a counter: it is
/// still warming up, still measuring, or standing at a barrier whose counter
/// has already reached zero.  No reachable configuration leaves every worker
/// spinning on a counter that can no longer move, so each phase transition
/// is always within one round of visits.
pub proof fn lemma_barriers_never_wedge(e: Executor)
    requires
        e.wf(),
        !e.spec_all_done(),
    ensures
        exists|i: int|
            0 <= i < e.workers@.len() && match (#[trigger] e.workers@[i]).phase {
                Phase::WarmingUp => true,
                Phase::AwaitingPeers => e.barriers.not_ready == 0,
                Phase::Measuring => true,
                Phase::Draining => e.barriers.not_done == 0,
                Phase::Done => false,
            },
{
    let ws = e.workers@;
    let j = choose|j: int| 0 <= j < ws.len() && !((#[trigger] ws[j]).phase is Done);
    assert(ws[j].wf());
    match ws[j].phase {
        Phase::WarmingUp => {},
        Phase::Measuring => {},
        Phase::AwaitingPeers => {
            if e.barriers.not_ready != 0 {
                lemma_count_pending_nonzero_member(ws);
                let k = choose|k: int| 0 <= k < ws.len() && !(#[trigger] ws[k]).arrived_ready;
                assert(ws[k].wf());
                assert(ws[k].phase is WarmingUp);
            }
        },
        Phase::Draining => {
            if e.barriers.not_done != 0 {
                lemma_count_pending_nonzero_member(ws);
                let k = choose|k: int| 0 <= k < ws.len() && !(#[trigger] ws[k]).arrived_done;
                assert(ws[k].wf());
                if ws[k].phase is AwaitingPeers && e.barriers.not_ready != 0 {
                    let m = choose|m: int|
                        0 <= m < ws.len() && !(#[trigger] ws[m]).arrived_ready;
                    assert(ws[m].wf());
                    assert(ws[m].phase is WarmingUp);
                }
            }
        },
        Phase::Done => {},
    }
}

/// One scheduler step, as a relation: `e2` is exactly what one visit to
/// `e1`'s current worker (including the yield rule) makes of `e1`.
pub open spec fn spec_sched_step_rel(e1: Executor, e2: Executor) -> bool {
    let op_ok = spec_apply(e1.program, e1.argument) is Ok;
    let (w2, b2, c2) = spec_step(
        e1.workers@[e1.current as int],
        e1.barriers,
        e1.clock,
        op_ok,
        e1.cfg,
    );
    let yielded = w2.phase is Done || c2 - e1.last_yield > TIMESLICE_NS;
    &&& e1.clock + e1.cfg.op_cost_ns <= u128::MAX
    &&& e2.cfg == e1.cfg
    &&& e2.program == e1.program
    &&& e2.argument == e1.argument
    &&& e2.workers@ == e1.workers@.update(e1.current as int, w2)
    &&& e2.barriers == b2
    &&& e2.clock == c2
    &&& e2.last_yield == if yielded {
        c2
    } else {
        e1.last_yield
    }
    &&& e2.current as int == if !yielded {
        e1.current as int
    } else if e1.current + 1 == e1.workers@.len() {
        0int
    } else {
        e1.current + 1
    }
}

/// `e2` is reached from `e1` by exactly `n` scheduler steps.
pub open spec fn sched_reaches_in(e1: Executor, e2: Executor, n: nat) -> bool
    decreases n,
{
    if n == 0 {
        e2 == e1
    } else {
        exists|mid: Executor|
            sched_reaches_in(e1, mid, (n - 1) as nat) && spec_sched_step_rel(mid, e2)
    }
}

/// `e2` is reached from `e1` by some number of scheduler steps: every
/// outcome a runner reports comes from such a genuine run, never from a
/// state made up out of thin air.
pub open spec fn sched_reachable(e1: Executor, e2: Executor) -> bool {
    exists|n: nat| sched_reaches_in(e1, e2, n)
}

pub proof fn lemma_sched_reachable_refl(e: Executor)
    ensures
        sched_reachable(e, e),
{
    assert(sched_reaches_in(e, e, 0));
}

pub proof fn lemma_sched_reachable_step(e1: Executor, e2: Executor, e3: Executor)
    requires
        sched_reachable(e1, e2),
        spec_sched_step_rel(e2, e3),
    ensures
        sched_reachable(e1, e3),
{
    let n = choose|n: nat| sched_reaches_in(e1, e2, n);
    assert(sched_reaches_in(e1, e3, n + 1)) by {
        assert(sched_reaches_in(e1, e2, n) && spec_sched_step_rel(e2, e3));
    }
}

/// The executor a fresh experiment starts from: every worker warming up
/// from clock zero, both counters at the worker count, the core at the
/// first worker, and the fixed two-leaf argument.
pub open spec fn spec_fresh_executor(e: Executor, cfg: BenchConfig, program: Lambda) -> bool {
    &&& e.cfg == cfg
    &&& e.program == program
    &&& e.workers@.len() == cfg.workers
    &&& forall|i: int|
        0 <= i < cfg.workers ==> #[trigger] e.workers@[i] == WorkerState::spec_fresh()
    &&& e.barriers == (Barriers { not_ready: cfg.workers, not_done: cfg.workers })
    &&& e.clock == 0
    &&& e.last_yield == 0
    &&& e.current == 0
    &&& e.argument is Tree
    &&& e.argument->Tree_0@.len() == 2
    &&& e.argument->Tree_0@[0] == Value::Word(1)
    &&& e.argument->Tree_0@[1] == Value::Word(2)
}

/// How much clock time may still pass before the current worker must hand
/// the core onward.
pub open spec fn yield_budget(last_yield: u128, clock: u128, cfg: BenchConfig) -> nat {
    if last_yield + TIMESLICE_NS + cfg.op_cost_ns >= clock {
        (last_yield + TIMESLICE_NS + cfg.op_cost_ns - clock) as nat
    } else {
        0nat
    }
}

proof fn lemma_sum_slack_member(ws: Seq<WorkerState>, i: int, clock: u128, cfg: BenchConfig)
    requires
        0 <= i < ws.len(),
    ensures
        worker_slack(ws[i], clock, cfg) <= sum_slack(ws, clock, cfg),
    decreases ws.len(),
{
    if i < ws.len() - 1 {
        lemma_sum_slack_member(ws.drop_last(), i, clock, cfg);
    }
}

proof fn lemma_next_worker_is_mod(cur: int, n: int)
    requires
        0 <= cur < n,
    ensures
        (if cur + 1 == n {
            0int
        } else {
            cur + 1
        }) == (cur + 1) % n,
{
    if cur + 1 == n {
        vstd::arithmetic::div_mod::lemma_mod_self_0(n);
    } else {
        vstd::arithmetic::div_mod::lemma_small_mod((cur + 1) as nat, n as nat);
    }
}

/// One scheduler step strictly decreases the termination measure: the total
/// phase progress owed, then the timed work left, then the round-robin
/// distance to a worker that can make phase progress, then the time left in
/// the current timeslice.  This is why every experiment completes: each
/// visit either advances a phase, burns timed work, walks the core toward a
/// worker that can advance one, or spends timeslice that forces that walk.
pub proof fn lemma_sched_step_decreases(e: Executor)
    requires
        e.wf(),
        !e.spec_all_done(),
        e.clock + e.cfg.op_cost_ns <= u128::MAX,
    ensures
        ({
            let op_ok = spec_apply(e.program, e.argument) is Ok;
            let (w2, b2, c2) = spec_step(
                e.workers@[e.current as int],
                e.barriers,
                e.clock,
                op_ok,
                e.cfg,
            );
            let ws2 = e.workers@.update(e.current as int, w2);
            let yielded = w2.phase is Done || c2 - e.last_yield > TIMESLICE_NS;
            let ly2: u128 = if yielded {
                c2
            } else {
                e.last_yield
            };
            let cur2: int = if !yielded {
                e.current as int
            } else if e.current + 1 == e.workers@.len() {
                0int
            } else {
                e.current + 1
            };
            ||| sum_rank(ws2) < sum_rank(e.workers@)
            ||| (sum_rank(ws2) == sum_rank(e.workers@) && sum_slack(ws2, c2, e.cfg)
                < sum_slack(e.workers@, e.clock, e.cfg))
            ||| (sum_rank(ws2) == sum_rank(e.workers@) && sum_slack(ws2, c2, e.cfg)
                == sum_slack(e.workers@, e.clock, e.cfg) && scan_actionable(ws2, b2, cur2, 0)
                < scan_actionable(e.workers@, e.barriers, e.current as int, 0))
            ||| (sum_rank(ws2) == sum_rank(e.workers@) && sum_slack(ws2, c2, e.cfg)
                == sum_slack(e.workers@, e.clock, e.cfg) && scan_actionable(ws2, b2, cur2, 0)
                == scan_actionable(e.workers@, e.barriers, e.current as int, 0)
                && yield_budget(ly2, c2, e.cfg) < yield_budget(e.last_yield, e.clock, e.cfg))
        }),
{
    let ws = e.workers@;
    let b = e.barriers;
    let clock = e.clock;
    let cfg = e.cfg;
    let cur = e.current as int;
    let n = ws.len() as int;
    let c = cfg.op_cost_ns;
    let w = ws[cur];
    let op_ok = spec_apply(e.program, e.argument) is Ok;
    let (w2, b2, c2) = spec_step(w, b, clock, op_ok, cfg);
    let ws2 = ws.update(cur, w2);
    let yielded = w2.phase is Done || c2 - e.last_yield > TIMESLICE_NS;
    let cur2: int = if !yielded {
        cur
    } else if cur + 1 == n {
        0int
    } else {
        cur + 1
    };
    assert(w.wf());
    assert(w.wf_timing(clock, cfg));
    lemma_sum_rank_update(ws, cur, w2);
    lemma_sum_slack_update(ws, cur, w2, c2, cfg);
    lemma_sum_slack_clock_mono(ws, clock, c2, cfg);
    lemma_next_worker_is_mod(cur, n);
    // Whether the visit performs a unit operation without making a phase
    // transition; only then do the later measure components matter.
    let transitioned = w2.phase != w.phase;
    if transitioned {
        assert(phase_rank(w2.phase) < phase_rank(w.phase));
        assert(sum_rank(ws2) < sum_rank(ws));
    } else {
        // The phase is unchanged, so this visit performed an operation (or,
        // for a finished worker, nothing at all) and the ranks are equal.
        assert(sum_rank(ws2) == sum_rank(ws));
        assert(worker_slack(w2, c2, cfg) == worker_slack(w, c2, cfg));
        assert(sum_slack(ws2, c2, cfg) == sum_slack(ws, c2, cfg));
        if w.phase is Done {
            // Nothing happened; the core moves on immediately.
            assert(w2 == w);
            assert(ws2 =~= ws);
            assert(b2 == b);
            assert(c2 == clock);
            assert(yielded);
            lemma_step_scan_decreases(e, ws2, b2, cur2);
        } else {
            // An operation ran: the clock advanced by its full cost.
            assert(c2 == clock + c);
            if sum_slack(ws, clock, cfg) > 0 {
                lemma_sum_slack_clock_strict(ws, clock, c2, cfg);
            } else {
                // No timed work is left anywhere, so the visited worker was
                // spinning at a closed barrier: it is not actionable.
                assert(worker_slack(w, clock, cfg) == 0) by {
                    lemma_sum_slack_member(ws, cur, clock, cfg);
                }
                assert(!actionable(w, b));
                assert(sum_slack(ws, c2, cfg) == 0) by {
                    lemma_sum_slack_clock_mono(ws, clock, c2, cfg);
                }
                assert(forall|i: int|
                    0 <= i < n ==> actionable(#[trigger] ws2[i], b2) == actionable(ws[i], b));
                if yielded {
                    lemma_step_scan_decreases(e, ws2, b2, cur2);
                } else {
                    lemma_scan_congruent(ws2, b2, ws, b, cur, 0);
                    assert(yield_budget(e.last_yield, c2, cfg) < yield_budget(
                        e.last_yield,
                        clock,
                        cfg,
                    ));
                }
            }
        }
    }
}

/// In a step that makes no phase progress and burns no timed work, handing
/// the core onward brings it strictly closer to a worker that can.
proof fn lemma_step_scan_decreases(e: Executor, ws2: Seq<WorkerState>, b2: Barriers, cur2: int)
    requires
        e.wf(),
        !e.spec_all_done(),
        ws2.len() == e.workers@.len(),
        forall|i: int|
            0 <= i < ws2.len() ==> actionable(#[trigger] ws2[i], b2) == actionable(
                e.workers@[i],
                e.barriers,
            ),
        !actionable(e.workers@[e.current as int], e.barriers),
        cur2 == (e.current + 1) % (e.workers@.len() as int),
    ensures
        scan_actionable(ws2, b2, cur2, 0) < scan_actionable(
            e.workers@,
            e.barriers,
            e.current as int,
            0,
        ),
{
    let ws = e.workers@;
    let b = e.barriers;
    let cur = e.current as int;
    let n = ws.len() as int;
    lemma_barriers_never_wedge(e);
    let i = choose|i: int|
        0 <= i < n && match (#[trigger] ws[i]).phase {
            Phase::WarmingUp => true,
            Phase::AwaitingPeers => b.not_ready == 0,
            Phase::Measuring => true,
            Phase::Draining => b.not_done == 0,
            Phase::Done => false,
        };
    assert(actionable(ws[i], b));
    lemma_scan_exists(ws, b, cur, i);
    vstd::arithmetic::div_mod::lemma_small_mod(cur as nat, n as nat);
    assert(scan_actionable(ws, b, cur, 0) == scan_actionable(ws, b, cur, 1));
    lemma_scan_shift(ws, b, cur, 1);
    lemma_scan_congruent(ws2, b2, ws, b, cur2, 0);
}

/// Why a run inside the isolated domain failed.
#[derive(Debug, Copy, Clone, PartialEq, Eq, Structural)]
pub enum GuestError {
    /// The entry argument vector matches no recognized shape: a host/guest
    /// protocol defect.
    BadShape,
    /// The requested worker count is zero.
    NoWorkers,
    /// The parameters exceed what this domain can run: a zero operation
    /// cost, a worker count beyond the address width, or a count that would
    /// not fit a machine word.
    Unsupported,
    /// The image byte range lies outside the shared region.
    ImageBounds,
    /// The image bytes do not decode.
    Image(ImageError),
    /// The image decoded, but not to a callable: a fatal contract violation.
    NotCallable,
    /// The output slots lie outside the shared region.
    OutputBounds,
    /// A worker's unit operation failed mid-run.
    WorkerFailed,
    /// The step budget ran out before the run completed.
    Starved,
}

/// The worker count an entry argument vector requests.
pub open spec fn spec_shape_workers(argv: Seq<u64>) -> u64 {
    if argv.len() == 5 {
        argv[2]
    } else {
        argv[5]
    }
}

/// How many output slots an entry argument vector provides.
pub open spec fn spec_shape_output_count(argv: Seq<u64>) -> u64 {
    if argv.len() == 5 {
        1u64
    } else {
        argv[5]
    }
}

/// The warmup an entry argument vector requests (the five-word shape has
/// none).
pub open spec fn spec_shape_warmup(argv: Seq<u64>) -> u64 {
    if argv.len() == 5 {
        0u64
    } else {
        argv[2]
    }
}

/// Which setup failure, if any, stops a guest run before any worker starts.
/// The checks are made in this order, so the first failed check names the
/// error.
pub open spec fn spec_guest_error(mem: Seq<u8>, argv: Seq<u64>, op_cost_ns: u64) -> Option<
    GuestError,
> {
    if !(argv.len() == 5 || argv.len() == 7) {
        Some(GuestError::BadShape)
    } else if spec_shape_workers(argv) == 0 {
        Some(GuestError::NoWorkers)
    } else if op_cost_ns == 0 || spec_shape_workers(argv) > usize::MAX as u64 || (
    argv[3] as u128) / (op_cost_ns as u128) >= usize::MAX as u128 {
        Some(GuestError::Unsupported)
    } else if argv[0] + argv[1] > mem.len() {
        Some(GuestError::ImageBounds)
    } else if spec_image_error(mem.subrange(argv[0] as int, argv[0] + argv[1])) is Some {
        Some(
            GuestError::Image(
                spec_image_error(mem.subrange(argv[0] as int, argv[0] + argv[1]))->0,
            ),
        )
    } else if mem.subrange(argv[0] as int, argv[0] + argv[1])[0] != 1 {
        Some(GuestError::NotCallable)
    } else if argv[4] + 8 * spec_shape_output_count(argv) > mem.len() {
        Some(GuestError::OutputBounds)
    } else {
        None
    }
}

/// The experiment parameters a well-formed entry argument vector requests of
/// this domain.
pub open spec fn spec_guest_config(argv: Seq<u64>, op_cost_ns: u64) -> BenchConfig {
    BenchConfig {
        workers: spec_shape_workers(argv) as usize,
        warmup_ns: spec_shape_warmup(argv) as u128,
        duration_ns: argv[3] as u128,
        op_cost_ns,
    }
}

/// `e2` is a state of the experiment this entry argument vector requests:
/// reached by genuine scheduler steps from the fresh executor.
pub open spec fn spec_guest_run(e0: Executor, e2: Executor, argv: Seq<u64>, op_cost_ns: u64) -> bool {
    &&& spec_fresh_executor(e0, spec_guest_config(argv, op_cost_ns), Lambda::AddWords)
    &&& sched_reachable(e0, e2)
}

/// The entry point of the isolated domain.
///
/// It decodes the entry argument vector, reads and decodes the program image
/// out of the shared region, demands a callable, runs the cooperative
/// experiment, and writes one final count per output slot before returning
/// control (and with it, ownership of the region) to the host.  Every setup
/// failure is reported before any worker starts.  A returned count vector is
/// the one a genuine completed run of the requested experiment produced;
/// starvation can only be reported out of a genuine run whose logical clock
/// reached its 128-bit ceiling.
pub fn guest_main(region: &mut SharedRegion, argv: &Vec<u64>, op_cost_ns: u64) -> (r: Result<
    Vec<usize>,
    GuestError,
>)
    ensures
        final(region)@.len() == old(region)@.len(),
        match spec_guest_error(old(region)@, argv@, op_cost_ns) {
            Some(e) => r == Err::<Vec<usize>, GuestError>(e) && final(region)@ == old(region)@,
            None => match r {
                Ok(counts) => {
                    &&& counts@.len() == spec_shape_workers(argv@)
                    &&& (argv@[3] as u128 > op_cost_ns as u128 ==> forall|i: int|
                        0 <= i < counts@.len() ==> #[trigger] counts@[i] >= 1)
                    &&& exists|e0: Executor, e2: Executor|
                        #[trigger] spec_guest_run(e0, e2, argv@, op_cost_ns)
                            && e2.spec_all_done() && !e2.spec_any_failed()
                            && e2.barriers.not_ready == 0 && e2.barriers.not_done == 0
                            && counts@.len() == e2.workers@.len() && forall|i: int|
                            0 <= i < counts@.len() ==> counts@[i] == (
                            #[trigger] e2.workers@[i]).iters
                    &&& (argv@.len() == 7 ==> forall|j: int|
                        0 <= j < counts@.len() ==> le_word_value(
                            final(region)@.subrange(
                                argv@[4] + 8 * j,
                                argv@[4] + 8 * j + 8,
                            ),
                        ) == #[trigger] counts@[j])
                    &&& (argv@.len() == 5 ==> le_word_value(
                        final(region)@.subrange(argv@[4] as int, argv@[4] + 8),
                    ) == counts@[counts@.len() - 1])
                    &&& forall|k: int|
                        0 <= k < old(region)@.len() && !(argv@[4] <= k < argv@[4] + 8
                            * spec_shape_output_count(argv@))
                            ==> final(region)@[k] == old(region)@[k]
                },
                Err(e) => {
                    &&& e == GuestError::Starved
                    &&& final(region)@ == old(region)@
                    &&& exists|e0: Executor, e2: Executor|
                        #[trigger] spec_guest_run(e0, e2, argv@, op_cost_ns)
                            && !e2.spec_all_done() && e2.clock as int + op_cost_ns as int
                            > u128::MAX as int
                },
            },
        },
{
    let ghost mem0 = region@;
    let args = match decode_argv(argv) {
        Ok(a) => a,
        Err(_) => {
            return Err(GuestError::BadShape);
        },
    };
    let (image_offset, image_len, warmup_ns, duration_ns, output_offset, output_count):
        (u64, u64, u64, u64, u64, u64) = match args {
        EntryArgs::SharedSlot { image_offset, image_len, workers, duration_ns, output_offset } => (
            image_offset,
            image_len,
            0,
            duration_ns,
            output_offset,
            1,
        ),
        EntryArgs::PerWorker {
            image_offset,
            image_len,
            warmup_ns,
            duration_ns,
            output_offset,
            output_count,
            feature_flag: _,
        } => (image_offset, image_len, warmup_ns, duration_ns, output_offset, output_count),
    };
    let workers_w: u64 = if argv.len() == 5 {
        argv[2]
    } else {
        argv[5]
    };
    if workers_w == 0 {
        return Err(GuestError::NoWorkers);
    }
    if op_cost_ns == 0 || workers_w > usize::MAX as u64 || (duration_ns as u128) / (
    op_cost_ns as u128) >= usize::MAX as u128 {
        return Err(GuestError::Unsupported);
    }
    let region_len: usize = region.size();
    if (image_offset as u128) + (image_len as u128) > region_len as u128 {
        return Err(GuestError::ImageBounds);
    }
    let image_bytes = region.read_bytes(image_offset as usize, image_len as usize);
    let program: Lambda = match decode_image(&image_bytes) {
        Err(e) => {
            return Err(GuestError::Image(e));
        },
        Ok(Value::Lambda(l)) => l,
        Ok(_) => {
            return Err(GuestError::NotCallable);
        },
    };
    if (output_offset as u128) + 8 * (output_count as u128) > region_len as u128 {
        return Err(GuestError::OutputBounds);
    }
    let cfg = BenchConfig {
        workers: workers_w as usize,
        warmup_ns: warmup_ns as u128,
        duration_ns: duration_ns as u128,
        op_cost_ns,
    };
    let mut exec = Executor::new(cfg, program);
    proof {
        assert(program == Lambda::AddWords);
        assert(cfg == spec_guest_config(argv@, op_cost_ns));
        assert(spec_fresh_executor(exec, spec_guest_config(argv@, op_cost_ns), Lambda::AddWords));
    }
    let ghost e0 = exec;
    let counts = match exec.run_to_completion() {
        Ok(c) => c,
        Err(BenchError::WorkerFailed) => {
            // The executor invariant rules a failed operation out.
            proof {
                assert(false);
            }
            return Err(GuestError::WorkerFailed);
        },
        Err(BenchError::Starved) => {
            proof {
                assert(spec_guest_run(e0, exec, argv@, op_cost_ns));
            }
            return Err(GuestError::Starved);
        },
        Err(BenchError::Unsupported) => {
            // The executor's contract rules this outcome out.
            proof {
                assert(false);
            }
            return Err(GuestError::Starved);
        },
    };
    proof {
        assert(spec_guest_run(e0, exec, argv@, op_cost_ns));
        assert(exists|w0: Executor, w2: Executor|
            #[trigger] spec_guest_run(w0, w2, argv@, op_cost_ns) && w2.spec_all_done()
                && !w2.spec_any_failed() && w2.barriers.not_ready == 0
                && w2.barriers.not_done == 0 && counts@.len() == w2.workers@.len() && forall|
                i: int,
            |
                0 <= i < counts@.len() ==> counts@[i] == (#[trigger] w2.workers@[i]).iters);
    }
    let oo: usize = output_offset as usize;
    if output_count as usize == cfg.workers {
        let mut i: usize = 0;
        while i < cfg.workers
            invariant
                i <= cfg.workers,
                counts@.len() == cfg.workers,
                oo + 8 * cfg.workers <= region_len,
                region_len == region@.len(),
                region@.len() == mem0.len(),
                forall|j: int|
                    0 <= j < i ==> le_word_value(
                        region@.subrange(oo + 8 * j, oo + 8 * j + 8),
                    ) == #[trigger] counts@[j],
                forall|k: int|
                    0 <= k < mem0.len() && !(oo <= k < oo + 8 * i) ==> region@[k] == mem0[k],
            decreases cfg.workers - i,
        {
            let ghost before = region@;
            region.write_word(oo + 8 * i, counts[i] as u64);
            proof {
                assert forall|j: int|
                    0 <= j < i implies le_word_value(
                    region@.subrange(oo + 8 * j, oo + 8 * j + 8),
                ) == #[trigger] counts@[j] by {
                    assert(region@.subrange(oo + 8 * j, oo + 8 * j + 8) =~= before.subrange(
                        oo + 8 * j,
                        oo + 8 * j + 8,
                    ));
                }
            }
            i = i + 1;
        }
        Ok(counts)
    } else {
        region.write_word(oo, counts[cfg.workers - 1] as u64);
        Ok(counts)
    }
}

} // verus!
