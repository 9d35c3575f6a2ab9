//! A parallel benchmark execution engine: it measures sustained per-worker
//! throughput of a repeatable operation, with exact phase synchronization
//! (warmup, readiness barrier, measurement, drain barrier) and a host/guest
//! handoff protocol over offset-translated shared memory.

use vstd::prelude::*;

pub mod barrier;
pub mod region;
pub mod value;
pub mod worker;
pub mod protocol;
pub mod guest;
pub mod arca;
pub mod function;
pub mod v8;
pub mod clone;
pub mod jpeg;

use crate::barrier::Barriers;
use crate::guest::BenchError;

verus! {

broadcast use vstd::arithmetic::mul::group_mul_basics;

/// One immutable record per worker per experiment.
#[derive(Debug, Copy, Clone)]
pub struct Datum {
    /// How many workers ran concurrently in this experiment.
    pub parallel: usize,
    /// This worker's measured iteration count.
    pub iterations: usize,
    /// The configured measurement window, in nanoseconds.
    pub duration_ns: u128,
    /// Whether the embedding build carries debug assertions; recorded by the
    /// application that exports the data.
    pub debug: bool,
}

/// The aggregate of one experiment's per-worker counts, for the console
/// summary.
#[derive(Debug, Copy, Clone, PartialEq, Eq, Structural)]
pub struct Summary {
    pub min: usize,
    pub max: usize,
    pub mean: usize,
    pub range: usize,
}

/// The sum of a sequence of counts.
pub open spec fn spec_sum(s: Seq<usize>) -> int
    decreases s.len(),
{
    if s.len() == 0 {
        0
    } else {
        spec_sum(s.drop_last()) + s.last()
    }
}

proof fn lemma_sum_bounds(s: Seq<usize>, lo: int, hi: int)
    requires
        forall|i: int| 0 <= i < s.len() ==> lo <= #[trigger] s[i] <= hi,
    ensures
        s.len() as int * lo <= spec_sum(s) <= s.len() as int * hi,
    decreases s.len(),
{
    if s.len() == 0 {
    } else {
        assert(forall|i: int| 0 <= i < s.drop_last().len() ==> s.drop_last()[i] == s[i]);
        lemma_sum_bounds(s.drop_last(), lo, hi);
        assert(s.len() as int * lo == (s.len() - 1) * lo + lo) by (nonlinear_arith);
        assert(s.len() as int * hi == (s.len() - 1) * hi + hi) by (nonlinear_arith);
    }
}

proof fn lemma_mean_bounds(s: Seq<usize>, lo: int, hi: int)
    requires
        s.len() >= 1,
        forall|i: int| 0 <= i < s.len() ==> lo <= #[trigger] s[i] <= hi,
        0 <= lo,
    ensures
        lo <= spec_sum(s) / s.len() as int <= hi,
{
    let n = s.len() as int;
    lemma_sum_bounds(s, lo, hi);
    vstd::arithmetic::div_mod::lemma_div_is_ordered(n * lo, spec_sum(s), n);
    vstd::arithmetic::div_mod::lemma_div_is_ordered(spec_sum(s), n * hi, n);
    vstd::arithmetic::div_mod::lemma_div_multiples_vanish(lo, n);
    vstd::arithmetic::div_mod::lemma_div_multiples_vanish(hi, n);
    assert(n * lo == lo * n) by (nonlinear_arith);
    assert(n * hi == hi * n) by (nonlinear_arith);
}

/// Aggregate one experiment's counts: the smallest and largest count, the
/// integer mean, and how far the mean sits from the farther extreme.
pub fn summarize(results: &Vec<usize>) -> (s: Summary)
    requires
        results@.len() >= 1,
    ensures
        exists|i: int| 0 <= i < results@.len() && results@[i] == s.min,
        exists|i: int| 0 <= i < results@.len() && results@[i] == s.max,
        forall|i: int| 0 <= i < results@.len() ==> s.min <= #[trigger] results@[i] <= s.max,
        s.mean == spec_sum(results@) / results@.len() as int,
        s.min <= s.mean <= s.max,
        s.range == if s.max - s.mean >= s.mean - s.min {
            s.max - s.mean
        } else {
            s.mean - s.min
        },
{
    let n: usize = results.len();
    let mut min: usize = results[0];
    let mut max: usize = results[0];
    let mut sum: u128 = 0;
    let mut i: usize = 0;
    while i < n
        invariant
            i <= n,
            n == results@.len(),
            n >= 1,
            sum == spec_sum(results@.subrange(0, i as int)),
            sum <= i as int * usize::MAX as int,
            exists|k: int| 0 <= k < n && results@[k] == min,
            exists|k: int| 0 <= k < n && results@[k] == max,
            forall|k: int| 0 <= k < i ==> min <= #[trigger] results@[k] <= max,
            min <= max,
        decreases n - i,
    {
        let x: usize = results[i];
        proof {
            assert(results@.subrange(0, i + 1).drop_last() =~= results@.subrange(0, i as int));
            assert((i + 1) as int * usize::MAX as int == i as int * usize::MAX as int
                + usize::MAX as int) by (nonlinear_arith);
            assert(i as int * usize::MAX as int <= (u128::MAX - usize::MAX) as int)
                by (nonlinear_arith)
                requires
                    i as int <= usize::MAX as int,
                    usize::MAX as int * usize::MAX as int + usize::MAX <= u128::MAX,
            ;
            assert(usize::MAX as int * usize::MAX as int + usize::MAX <= u128::MAX)
                by (nonlinear_arith)
                requires
                    usize::MAX as int <= 0xffff_ffff_ffff_ffffint,
            ;
        }
        sum = sum + (x as u128);
        if x < min {
            min = x;
        }
        if x > max {
            max = x;
        }
        i = i + 1;
    }
    proof {
        assert(results@.subrange(0, n as int) =~= results@);
        lemma_mean_bounds(results@, min as int, max as int);
    }
    let mean: usize = (sum / (n as u128)) as usize;
    let range: usize = if max - mean >= mean - min {
        max - mean
    } else {
        mean - min
    };
    Summary { min, max, mean, range }
}

/// Whether `n` is a power of two.
pub open spec fn is_pow2(n: int) -> bool
    decreases n,
{
    if n <= 0 {
        false
    } else if n == 1 {
        true
    } else {
        n % 2 == 0 && is_pow2(n / 2)
    }
}

proof fn lemma_pow2_unique_in_doubling(p: int, q: int)
    requires
        is_pow2(p),
        is_pow2(q),
        p <= q < 2 * p,
    ensures
        q == p,
    decreases p,
{
    if p == 1 {
    } else if q == 1 {
        assert(p <= 1);
    } else {
        lemma_pow2_unique_in_doubling(p / 2, q / 2);
    }
}

/// How many records of `s` report the worker count `q`.
pub open spec fn count_with_parallel(s: Seq<Datum>, q: int) -> nat
    decreases s.len(),
{
    if s.len() == 0 {
        0
    } else {
        count_with_parallel(s.drop_last(), q) + if s.last().parallel == q {
            1nat
        } else {
            0nat
        }
    }
}

proof fn lemma_count_with_parallel_push(s: Seq<Datum>, d: Datum, q: int)
    ensures
        count_with_parallel(s.push(d), q) == count_with_parallel(s, q) + if d.parallel == q {
            1int
        } else {
            0int
        },
{
    assert(s.push(d).drop_last() =~= s);
}

/// A benchmark backend: one polymorphic capability that runs one experiment
/// and yields one iteration count per worker.  The harness depends only on
/// this interface.
pub trait Benchmark {
    /// Run `parallel` concurrent workers through the warmup, readiness
    /// barrier, measurement and drain barrier sequence; one count per
    /// worker, in spawn order.
    fn bench(&self, parallel: usize, warmup_ns: u128, duration_ns: u128) -> (r: Result<
        Vec<usize>,
        BenchError,
    >)
        requires
            parallel >= 1,
        ensures
            r matches Ok(v) ==> v@.len() == parallel,
    ;

    /// Run one experiment and emit one record per worker carrying the raw,
    /// unaggregated count, in spawn order: record `i` holds exactly the
    /// `i`-th count of a result vector that `bench` can return for these
    /// parameters.  A worker failure is fatal to the experiment: no retry,
    /// no partial result.
    fn experiment(&self, parallel: usize, warmup_ns: u128, duration_ns: u128) -> (r: Result<
        Vec<Datum>,
        BenchError,
    >)
        requires
            parallel >= 1,
        ensures
            r matches Ok(d) ==> d@.len() == parallel && forall|i: int|
                0 <= i < d@.len() ==> (#[trigger] d@[i]).parallel == parallel
                    && d@[i].duration_ns == duration_ns,
            r matches Ok(d) ==> exists|counts: Vec<usize>|
                #[trigger] call_ensures(
                    Self::bench,
                    (self, parallel, warmup_ns, duration_ns),
                    Ok(counts),
                ) && counts@.len() == d@.len() && forall|i: int|
                    0 <= i < d@.len() ==> (#[trigger] d@[i]).iterations == counts@[i],
    {
        let results = match self.bench(parallel, warmup_ns, duration_ns) {
            Ok(v) => v,
            Err(e) => {
                return Err(e);
            },
        };
        let n: usize = results.len();
        let mut data: Vec<Datum> = Vec::new();
        let mut i: usize = 0;
        while i < n
            invariant
                i <= n,
                n == results@.len(),
                data@.len() == i,
                forall|j: int|
                    0 <= j < i ==> (#[trigger] data@[j]).parallel == parallel
                        && data@[j].duration_ns == duration_ns,
                forall|j: int|
                    0 <= j < i ==> (#[trigger] data@[j]).iterations == results@[j],
            decreases n - i,
        {
            data.push(
                Datum {
                    parallel,
                    iterations: results[i],
                    duration_ns,
                    debug: false,
                },
            );
            i = i + 1;
        }
        Ok(data)
    }

    /// Run one experiment per power-of-two worker count from one up to
    /// `max_parallel` inclusive, in increasing order: the records come in
    /// nondecreasing worker count, and each power of two in range
    /// contributes exactly that many records (its workers' counts), every
    /// other worker count none.  A failed experiment aborts the sweep, but
    /// the completed experiments' records are retained and returned
    /// alongside the error: every power of two below the failed one keeps
    /// its full set of records, and nothing from the failed one onward
    /// appears.
    fn collect_data(&self, max_parallel: usize, warmup_ns: u128, duration_ns: u128) -> (r: (
        Vec<Datum>,
        Option<BenchError>,
    ))
        requires
            max_parallel >= 1,
        ensures
            forall|i: int|
                0 <= i < r.0@.len() ==> is_pow2((#[trigger] r.0@[i]).parallel as int)
                    && r.0@[i].parallel <= max_parallel && r.0@[i].duration_ns == duration_ns,
            forall|i: int, j: int|
                0 <= i <= j < r.0@.len() ==> (#[trigger] r.0@[i]).parallel <= (
                #[trigger] r.0@[j]).parallel,
            r.1 is None ==> forall|q: int|
                1 <= q <= max_parallel && is_pow2(q) ==> count_with_parallel(r.0@, q) == q,
            forall|q: int|
                !(1 <= q <= max_parallel && is_pow2(q)) ==> count_with_parallel(r.0@, q) == 0,
            r.1 is Some ==> exists|pf: int|
                1 <= pf <= max_parallel && #[trigger] is_pow2(pf) && (forall|q: int|
                    1 <= q < pf && is_pow2(q) ==> count_with_parallel(r.0@, q) == q) && (forall|
                    q: int,
                |
                    q >= pf ==> count_with_parallel(r.0@, q) == 0),
            r.1 is None ==> forall|q: int|
                1 <= q <= max_parallel && is_pow2(q) ==> exists|i: int|
                    0 <= i < r.0@.len() && (#[trigger] r.0@[i]).parallel == q,
    {
        let mut data: Vec<Datum> = Vec::new();
        let mut p: usize = 1;
        loop
            invariant_except_break
                1 <= p <= max_parallel,
                is_pow2(p as int),
                forall|i: int|
                    0 <= i < data@.len() ==> is_pow2((#[trigger] data@[i]).parallel as int)
                        && data@[i].parallel <= max_parallel && data@[i].duration_ns
                        == duration_ns,
                forall|i: int| 0 <= i < data@.len() ==> (#[trigger] data@[i]).parallel < p,
                forall|i: int, j: int|
                    0 <= i <= j < data@.len() ==> (#[trigger] data@[i]).parallel <= (
                    #[trigger] data@[j]).parallel,
                forall|q: int|
                    1 <= q < p && is_pow2(q) ==> #[trigger] count_with_parallel(data@, q) == q,
                forall|q: int|
                    !(1 <= q < p && is_pow2(q)) ==> #[trigger] count_with_parallel(data@, q)
                        == 0,
                forall|q: int|
                    1 <= q < p && is_pow2(q) ==> exists|i: int|
                        0 <= i < data@.len() && (#[trigger] data@[i]).parallel == q,
            ensures
                forall|i: int|
                    0 <= i < data@.len() ==> is_pow2((#[trigger] data@[i]).parallel as int)
                        && data@[i].parallel <= max_parallel && data@[i].duration_ns
                        == duration_ns,
                forall|i: int, j: int|
                    0 <= i <= j < data@.len() ==> (#[trigger] data@[i]).parallel <= (
                    #[trigger] data@[j]).parallel,
                forall|q: int|
                    1 <= q <= max_parallel && is_pow2(q) ==> #[trigger] count_with_parallel(
                        data@,
                        q,
                    ) == q,
                forall|q: int|
                    !(1 <= q <= max_parallel && is_pow2(q)) ==> #[trigger] count_with_parallel(
                        data@,
                        q,
                    ) == 0,
                forall|q: int|
                    1 <= q <= max_parallel && is_pow2(q) ==> exists|i: int|
                        0 <= i < data@.len() && (#[trigger] data@[i]).parallel == q,
            decreases max_parallel - p,
        {
            let batch = match self.experiment(p, warmup_ns, duration_ns) {
                Ok(d) => d,
                Err(e) => {
                    proof {
                        // The failed power is the witness: everything below
                        // it is complete, nothing from it onward appears.
                        assert(1 <= p as int <= max_parallel && is_pow2(p as int) && (forall|
                            q: int,
                        |
                            1 <= q < p as int && is_pow2(q) ==> count_with_parallel(data@, q)
                                == q) && (forall|q: int|
                            q >= p as int ==> count_with_parallel(data@, q) == 0));
                    }
                    return (data, Some(e));
                },
            };
            let m: usize = batch.len();
            let mut j: usize = 0;
            while j < m
                invariant
                    j <= m,
                    m == batch@.len(),
                    m == p,
                    1 <= p <= max_parallel,
                    is_pow2(p as int),
                    forall|i: int|
                        0 <= i < batch@.len() ==> (#[trigger] batch@[i]).parallel == p
                            && batch@[i].duration_ns == duration_ns,
                    forall|i: int|
                        0 <= i < data@.len() ==> is_pow2((#[trigger] data@[i]).parallel as int)
                            && data@[i].parallel <= max_parallel && data@[i].duration_ns
                            == duration_ns,
                    forall|i: int| 0 <= i < data@.len() ==> (#[trigger] data@[i]).parallel <= p,
                    forall|i: int, j2: int|
                        0 <= i <= j2 < data@.len() ==> (#[trigger] data@[i]).parallel <= (
                        #[trigger] data@[j2]).parallel,
                    count_with_parallel(data@, p as int) == j,
                    j >= 1 ==> exists|i: int|
                        0 <= i < data@.len() && (#[trigger] data@[i]).parallel == p,
                    forall|q: int|
                        1 <= q < p && is_pow2(q) ==> #[trigger] count_with_parallel(data@, q)
                            == q,
                    forall|q: int|
                        !(1 <= q < p && is_pow2(q)) && q != p ==> #[trigger] count_with_parallel(
                            data@,
                            q,
                        ) == 0,
                    forall|q: int|
                        1 <= q < p && is_pow2(q) ==> exists|i: int|
                            0 <= i < data@.len() && (#[trigger] data@[i]).parallel == q,
                decreases m - j,
            {
                let ghost before = data@;
                data.push(batch[j]);
                proof {
                    assert(data@[before.len() as int] == batch@[j as int]);
                    assert(forall|i: int| 0 <= i < before.len() ==> data@[i] == before[i]);
                    assert(data@ == before.push(batch@[j as int]));
                    assert forall|q: int| true implies #[trigger] count_with_parallel(data@, q)
                        == count_with_parallel(before, q) + (if batch@[j as int].parallel == q {
                        1int
                    } else {
                        0int
                    }) by {
                        lemma_count_with_parallel_push(before, batch@[j as int], q);
                    }
                }
                j = j + 1;
            }
            if p > max_parallel / 2 {
                proof {
                    assert(max_parallel < 2 * p) by {
                        vstd::arithmetic::div_mod::lemma_fundamental_div_mod(
                            max_parallel as int,
                            2,
                        );
                    }
                    assert forall|q: int| 1 <= q <= max_parallel && is_pow2(q) implies
                        #[trigger] count_with_parallel(data@, q) == q by {
                        if q >= p {
                            lemma_pow2_unique_in_doubling(p as int, q);
                        }
                    }
                    assert forall|q: int|
                        !(1 <= q <= max_parallel && is_pow2(q)) implies
                        #[trigger] count_with_parallel(data@, q) == 0 by {}
                    assert forall|q: int| 1 <= q <= max_parallel && is_pow2(q) implies exists|
                        i: int,
                    |
                        0 <= i < data@.len() && (#[trigger] data@[i]).parallel == q by {
                        if q >= p {
                            lemma_pow2_unique_in_doubling(p as int, q);
                        }
                    }
                }
                break ;
            }
            proof {
                assert(2 * p <= max_parallel) by {
                    vstd::arithmetic::div_mod::lemma_fundamental_div_mod(max_parallel as int, 2);
                }
                assert(is_pow2(2 * p as int)) by {
                    assert((2 * p as int) / 2 == p as int) by {
                        vstd::arithmetic::div_mod::lemma_div_multiples_vanish(p as int, 2);
                    }
                }
                assert forall|q: int| 1 <= q < 2 * p && is_pow2(q) implies
                    #[trigger] count_with_parallel(data@, q) == q by {
                    if q >= p {
                        lemma_pow2_unique_in_doubling(p as int, q);
                    }
                }
                assert forall|q: int| 1 <= q < 2 * p && is_pow2(q) implies exists|i: int|
                    0 <= i < data@.len() && (#[trigger] data@[i]).parallel == q by {
                    if q >= p {
                        lemma_pow2_unique_in_doubling(p as int, q);
                    }
                }
            }
            p = p * 2;
        }
        let result: (Vec<Datum>, Option<BenchError>) = (data, None);
        proof {
            assert(result.0 == data);
            assert(result.1 is None);
        }
        result
    }
}

/// A backend whose worker routine runs on the calling context alone, against
/// a logical clock.
pub trait SingleThreadedRuntime {
    /// The logical cost of one unit operation, in nanoseconds.
    spec fn op_cost(&self) -> u64;

    /// The worker routine as the sole worker: warm up, announce
    /// readiness, measure until the deadline, announce completion.  With
    /// both counters at one, the caller's own arrival is each phase
    /// transition, so no spin is ever required, and the returned count is
    /// exactly the number of operations that completed strictly before the
    /// deadline.
    fn run(&self, warmup_ns: u128, duration_ns: u128, barriers: &mut Barriers) -> (iters: usize)
        requires
            self.op_cost() >= 1,
            old(barriers).not_ready == 1,
            old(barriers).not_done == 1,
            duration_ns / (self.op_cost() as u128) < usize::MAX as u128,
            warmup_ns + duration_ns + 2 * self.op_cost() <= u128::MAX,
        ensures
            final(barriers).not_ready == 0,
            final(barriers).not_done == 0,
            iters == crate::worker::iters_counted(self.op_cost() as nat, duration_ns as nat),
    ;
}

} // verus!
