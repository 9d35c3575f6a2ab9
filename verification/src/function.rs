//! The plain-function backend: the unit operation is a direct call, with no
//! isolation boundary around it.  It is the baseline the sandboxed backends
//! are compared against, and the reference implementation of the
//! single-threaded worker routine with an exact iteration-count contract.

use vstd::prelude::*;
use crate::SingleThreadedRuntime;
use crate::barrier::Barriers;
use crate::worker::iters_counted;

verus! {

/// The benchmarked operation: one 32-bit addition.
pub fn add(x: u32, y: u32) -> (r: u32)
    requires
        x + y <= u32::MAX,
    ensures
        r == x + y,
{
    x + y
}

/// A benchmark whose unit operation is one plain function call.
pub struct FunctionBenchmark;

impl FunctionBenchmark {
    pub fn new() -> (b: FunctionBenchmark) {
        FunctionBenchmark
    }

    /// Perform the unit operation `todo` times.
    pub fn iterate(&self, todo: usize) {
        let mut i: usize = 0;
        while i < todo
            decreases todo - i,
        {
            let _ = crate::function::add(1, 2);
            i = i + 1;
        }
    }
}

impl Default for FunctionBenchmark {
    fn default() -> (b: Self) {
        Self::new()
    }
}

impl SingleThreadedRuntime for FunctionBenchmark {
    /// One call is the unit of the logical clock.
    open spec fn op_cost(&self) -> u64 {
        1
    }

    fn run(&self, warmup_ns: u128, duration_ns: u128, barriers: &mut Barriers) -> (iters: usize)
        ensures
            iters as int == if duration_ns == 0 {
                0int
            } else {
                duration_ns - 1
            },
    {
        let mut clock: u128 = 0;
        while clock < warmup_ns
            invariant
                clock <= warmup_ns,
                warmup_ns + duration_ns + 2 <= u128::MAX,
                barriers.not_ready == 1,
                barriers.not_done == 1,
            decreases warmup_ns - clock,
        {
            self.iterate(1);
            clock = clock + 1;
        }
        barriers.arrive_ready();
        // The sole worker's own arrival empties the readiness counter, so
        // measurement starts with no spin at all.
        let start: u128 = clock;
        let mut iters: usize = 0;
        proof {
            assert(duration_ns / 1 == duration_ns as int) by (nonlinear_arith);
        }
        loop
            invariant_except_break
                start == warmup_ns,
                clock == start + iters,
                iters == 0 || iters < duration_ns,
                duration_ns < usize::MAX as u128,
                warmup_ns + duration_ns + 2 <= u128::MAX,
                barriers.not_ready == 0,
                barriers.not_done == 1,
            ensures
                clock == start + iters + 1,
                clock - start >= duration_ns,
                iters == 0 || iters < duration_ns,
                barriers.not_ready == 0,
                barriers.not_done == 1,
            decreases duration_ns + 1 - (clock - start),
        {
            self.iterate(1);
            clock = clock + 1;
            if clock - start < duration_ns {
                iters = iters + 1;
            } else {
                break ;
            }
        }
        barriers.arrive_done();
        // Both counters read zero: the drain completes without a spin.
        proof {
            if duration_ns > 0 {
                assert((duration_ns - 1) as int / 1 == duration_ns - 1) by (nonlinear_arith);
            }
        }
        iters
    }
}

} // verus!
