//! The host side of the isolated-domain benchmark.
//!
//! The host owns one offset region, copies the program image into it,
//! pre-allocates one output slot per worker, marshals the entry argument
//! vector, hands the region to the domain, and reads the slots back once the
//! domain returns control.

use vstd::prelude::*;
use crate::Benchmark;
use crate::guest::{
    BenchError,
    Executor,
    GuestError,
    guest_main,
    sched_reachable,
    spec_fresh_executor,
    spec_guest_error,
    spec_guest_run,
};
use crate::value::{Lambda, spec_image_error};
use crate::region::{BumpAllocator, SharedRegion, spec_align_up};
use crate::worker::BenchConfig;

verus! {

broadcast use vstd::arithmetic::mul::group_mul_basics;

/// The logical cost of one unit operation in the modeled domain, in
/// nanoseconds.
pub const ARCA_OP_COST_NS: u64 = 1000;

/// The experiments this backend owes a result for: the timing fields fit
/// the argument words, the counts fit a machine word, the region fits the
/// address space, and the image decodes to a callable.
pub open spec fn spec_supported(
    elf: Seq<u8>,
    parallel: usize,
    warmup_ns: u128,
    duration_ns: u128,
) -> bool {
    &&& warmup_ns <= u64::MAX
    &&& duration_ns <= u64::MAX
    &&& duration_ns / (ARCA_OP_COST_NS as u128) < usize::MAX as u128
    &&& parallel as u64 <= u64::MAX / 8
    &&& elf.len() + 8 * parallel + 16 <= usize::MAX
    &&& spec_image_error(elf) is None
    &&& elf.len() >= 1
    &&& elf[0] == 1
}

/// `e2` is a state of the experiment this backend runs for these
/// parameters: reached by genuine scheduler steps from the fresh executor.
pub open spec fn spec_arca_run(
    e0: Executor,
    e2: Executor,
    parallel: usize,
    warmup_ns: u128,
    duration_ns: u128,
) -> bool {
    &&& spec_fresh_executor(
        e0,
        (BenchConfig { workers: parallel, warmup_ns, duration_ns, op_cost_ns: ARCA_OP_COST_NS }),
        Lambda::AddWords,
    )
    &&& sched_reachable(e0, e2)
}

/// A benchmark that runs its workers as cooperative tasks inside the
/// isolated domain, handing data across the boundary by offset.
pub struct ArcaBenchmark {
    /// The program image handed to the domain.
    pub elf: Vec<u8>,
}

impl ArcaBenchmark {
    /// Keep the program image to hand to the domain on every experiment.
    pub fn new(elf: &[u8]) -> (b: ArcaBenchmark)
        ensures
            b.elf@ == elf@,
    {
        let mut own: Vec<u8> = Vec::new();
        own.extend_from_slice(elf);
        ArcaBenchmark { elf: own }
    }
}

proof fn lemma_align_up_close(v: int, a: int)
    requires
        v >= 0,
        a >= 1,
    ensures
        v <= spec_align_up(v, a) < v + a,
{
    if v % a != 0 {
        vstd::arithmetic::div_mod::lemma_mod_bound(v, a);
    }
}

impl Benchmark for ArcaBenchmark {
    /// Set up the shared region, run the domain, and read one count per
    /// worker out of the output slots.  For every supported experiment the
    /// result is owed: only a logical clock outrunning its 128-bit width
    /// could still deny it.
    fn bench(&self, parallel: usize, warmup_ns: u128, duration_ns: u128) -> (r: Result<
        Vec<usize>,
        BenchError,
    >)
        ensures
            r matches Ok(v) ==> v@.len() == parallel,
            r matches Ok(v) ==> (duration_ns > ARCA_OP_COST_NS ==> forall|i: int|
                0 <= i < v@.len() ==> #[trigger] v@[i] >= 1),
            r != Err::<Vec<usize>, BenchError>(BenchError::WorkerFailed),
            spec_supported(self.elf@, parallel, warmup_ns, duration_ns) ==> (r is Ok || r
                == Err::<Vec<usize>, BenchError>(BenchError::Starved)),
            r matches Ok(v) ==> exists|e0: Executor, e2: Executor|
                #[trigger] spec_arca_run(e0, e2, parallel, warmup_ns, duration_ns)
                    && e2.spec_all_done() && !e2.spec_any_failed() && e2.barriers.not_ready == 0
                    && e2.barriers.not_done == 0 && v@.len() == e2.workers@.len() && forall|
                    i: int,
                |
                    0 <= i < v@.len() ==> v@[i] == (#[trigger] e2.workers@[i]).iters,
            r == Err::<Vec<usize>, BenchError>(BenchError::Starved) ==> exists|
                e0: Executor,
                e2: Executor,
            |
                #[trigger] spec_arca_run(e0, e2, parallel, warmup_ns, duration_ns)
                    && !e2.spec_all_done() && e2.clock as int + ARCA_OP_COST_NS as int
                    > u128::MAX as int,
    {
        // The entry argument vector carries word-sized fields only.
        if warmup_ns > u64::MAX as u128 || duration_ns > u64::MAX as u128 {
            return Err(BenchError::Unsupported);
        }
        if duration_ns / (ARCA_OP_COST_NS as u128) >= usize::MAX as u128 {
            return Err(BenchError::Unsupported);
        }
        if parallel as u64 > u64::MAX / 8 {
            return Err(BenchError::Unsupported);
        }
        let elf_len: usize = self.elf.len();
        let size128: u128 = elf_len as u128 + 8 * (parallel as u128) + 16;
        if size128 > usize::MAX as u128 {
            return Err(BenchError::Unsupported);
        }
        let size: usize = size128 as usize;
        let mut region = SharedRegion::new(size);
        let mut allocator = BumpAllocator::new(size);
        let image_offset: usize = match allocator.allocate(elf_len, 8) {
            Some(o) => o,
            None => {
                proof {
                    assert(spec_align_up(0, 8) == 0);
                    assert(false);
                }
                return Err(BenchError::Unsupported);
            },
        };
        region.write_bytes(image_offset, &self.elf);
        let output_offset: usize = match allocator.allocate(8 * parallel, 8) {
            Some(o) => o,
            None => {
                proof {
                    lemma_align_up_close(elf_len as int, 8);
                    assert(false);
                }
                return Err(BenchError::Unsupported);
            },
        };
        let mut argv: Vec<u64> = Vec::new();
        argv.push(image_offset as u64);
        argv.push(elf_len as u64);
        argv.push(warmup_ns as u64);
        argv.push(duration_ns as u64);
        argv.push(output_offset as u64);
        argv.push(parallel as u64);
        argv.push(0u64);
        let ghost mem0 = region@;
        proof {
            // A supported experiment passes every setup check of the
            // domain: the image range and the output slots are the two
            // allocations, and the image bytes are the caller's.
            assert(mem0.subrange(image_offset as int, image_offset + elf_len) =~= self.elf@);
            if spec_supported(self.elf@, parallel, warmup_ns, duration_ns) {
                assert(spec_guest_error(mem0, argv@, ARCA_OP_COST_NS) is None);
            }
        }
        proof {
            // The requested experiment, in the domain's own terms.
            assert(crate::guest::spec_guest_config(argv@, ARCA_OP_COST_NS) == (BenchConfig {
                workers: parallel,
                warmup_ns,
                duration_ns,
                op_cost_ns: ARCA_OP_COST_NS,
            }));
        }
        let counts = match guest_main(&mut region, &argv, ARCA_OP_COST_NS) {
            Ok(c) => c,
            Err(GuestError::WorkerFailed) => {
                // The domain's contract rules a failed operation out.
                proof {
                    assert(false);
                }
                return Err(BenchError::WorkerFailed);
            },
            Err(GuestError::Starved) => {
                proof {
                    assert(spec_guest_error(mem0, argv@, ARCA_OP_COST_NS) is None);
                    let (w0, w2) = choose|w0: Executor, w2: Executor|
                        #[trigger] spec_guest_run(w0, w2, argv@, ARCA_OP_COST_NS)
                            && !w2.spec_all_done() && w2.clock as int
                            + ARCA_OP_COST_NS as int > u128::MAX as int;
                    assert(spec_arca_run(w0, w2, parallel, warmup_ns, duration_ns));
                }
                return Err(BenchError::Starved);
            },
            Err(_) => {
                return Err(BenchError::Unsupported);
            },
        };
        proof {
            // Had any setup check failed, the domain would have reported it
            // instead of completing; so the output slots lie in bounds.
            assert(spec_guest_error(mem0, argv@, ARCA_OP_COST_NS) is None);
            assert(argv@[4] + 8 * crate::guest::spec_shape_output_count(argv@) <= mem0.len());
        }
        // Read the per-worker counts back out of the shared region's output
        // slots, as the host does once the domain signals completion.
        let mut results: Vec<usize> = Vec::new();
        let mut i: usize = 0;
        while i < parallel
            invariant
                i <= parallel,
                results@.len() == i,
                counts@.len() == parallel,
                output_offset + 8 * parallel <= size,
                size == region@.len(),
                forall|j: int| 0 <= j < i ==> results@[j] == #[trigger] counts@[j],
                forall|j: int|
                    0 <= j < parallel ==> crate::region::le_word_value(
                        region@.subrange(
                            output_offset + 8 * j,
                            output_offset + 8 * j + 8,
                        ),
                    ) == #[trigger] counts@[j],
            decreases parallel - i,
        {
            let w: u64 = region.read_word(output_offset + 8 * i);
            results.push(w as usize);
            i = i + 1;
        }
        proof {
            assert(argv@[3] == duration_ns as u64);
            let (w0, w2) = choose|w0: Executor, w2: Executor|
                #[trigger] spec_guest_run(w0, w2, argv@, ARCA_OP_COST_NS) && w2.spec_all_done()
                    && !w2.spec_any_failed() && w2.barriers.not_ready == 0
                    && w2.barriers.not_done == 0 && counts@.len() == w2.workers@.len() && forall|
                    j: int,
                |
                    0 <= j < counts@.len() ==> counts@[j] == (#[trigger] w2.workers@[j]).iters;
            assert(spec_arca_run(w0, w2, parallel, warmup_ns, duration_ns));
            assert(forall|j: int|
                0 <= j < results@.len() ==> results@[j] == (#[trigger] w2.workers@[j]).iters);
            if duration_ns > ARCA_OP_COST_NS as u128 {
                assert(argv@[3] as u128 > ARCA_OP_COST_NS as u128);
                assert forall|j: int| 0 <= j < results@.len() implies #[trigger] results@[j]
                    >= 1 by {
                    assert(results@[j] == counts@[j]);
                    assert(counts@[j] >= 1);
                }
            }
        }
        Ok(results)
    }
}

} // verus!
