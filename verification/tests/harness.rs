//! The harness: backends, experiments, the doubling sweep, and the
//! aggregate summary.

use benchmark::arca::ArcaBenchmark;
use benchmark::guest::BenchError;
use benchmark::barrier::Barriers;
use benchmark::clone::{addvec, matmul, matmul128, matmul64, CloneBenchmarkType, CloneConfig};
use benchmark::function::{add, FunctionBenchmark};
use benchmark::summarize;
use benchmark::v8::{NewIsolate, V8Benchmark};
use benchmark::Benchmark;
use benchmark::SingleThreadedRuntime;

/// The image whose callable sums two integers.
const ADD_IMAGE: [u8; 2] = [1, 0];

#[test]
fn bench_yields_one_count_per_worker_each_at_least_one() {
    // Four workers, no warmup, a hundred milliseconds of measurement.
    let b = ArcaBenchmark::new(&ADD_IMAGE);
    let counts = b.bench(4, 0, 100_000_000).expect("a clean run");
    assert_eq!(counts.len(), 4);
    for &c in &counts {
        assert!(c >= 1);
    }
    let s = summarize(&counts);
    let sum: usize = counts.iter().sum();
    assert_eq!(s.mean, sum / 4);
}

#[test]
fn experiment_records_the_raw_counts() {
    let b = ArcaBenchmark::new(&ADD_IMAGE);
    let data = b.experiment(2, 0, 200_000).expect("a clean run");
    assert_eq!(data.len(), 2);
    for d in &data {
        assert_eq!(d.parallel, 2);
        assert_eq!(d.duration_ns, 200_000);
    }
}

#[test]
fn collect_data_sweeps_the_powers_of_two() {
    let b = ArcaBenchmark::new(&ADD_IMAGE);
    let (data, err) = b.collect_data(4, 0, 100_000);
    assert!(err.is_none());
    let parallels: Vec<usize> = data.iter().map(|d| d.parallel).collect();
    assert_eq!(parallels, vec![1, 2, 2, 4, 4, 4, 4]);
}

#[test]
fn collect_data_stops_below_the_next_power() {
    let b = ArcaBenchmark::new(&ADD_IMAGE);
    let (data, err) = b.collect_data(5, 0, 100_000);
    assert!(err.is_none());
    // Five workers at most: the sweep covers one, two and four.
    assert_eq!(data.iter().filter(|d| d.parallel == 4).count(), 4);
    assert!(data.iter().all(|d| d.parallel <= 4));
}

#[test]
fn experiment_carries_the_raw_bench_counts() {
    // The modeled domain is deterministic, so a separate bench run yields
    // the same counts the experiment's records must carry.
    let b = ArcaBenchmark::new(&ADD_IMAGE);
    let counts = b.bench(3, 1_000, 300_000).expect("a clean run");
    let data = b.experiment(3, 1_000, 300_000).expect("a clean run");
    let recorded: Vec<usize> = data.iter().map(|d| d.iterations).collect();
    assert_eq!(recorded, counts);
}

#[test]
fn failed_sweep_retains_the_completed_experiments() {
    // An unsupported duration fails the very first experiment: nothing is
    // retained and the error is reported beside the (empty) data.
    let b = ArcaBenchmark::new(&ADD_IMAGE);
    let too_long = (u64::MAX as u128) + 1;
    let (data, err) = b.collect_data(4, 0, too_long);
    assert_eq!(err, Some(BenchError::Unsupported));
    assert!(data.is_empty());
}

#[test]
fn out_of_range_parameters_are_unsupported() {
    let b = ArcaBenchmark::new(&ADD_IMAGE);
    let too_long = (u64::MAX as u128) + 1;
    assert_eq!(b.bench(1, 0, too_long), Err(BenchError::Unsupported));
    assert_eq!(b.bench(1, too_long, 1), Err(BenchError::Unsupported));
}

#[test]
fn summarize_reports_min_max_mean_range() {
    let s = summarize(&vec![3, 1, 2]);
    assert_eq!((s.min, s.max, s.mean, s.range), (1, 3, 2, 1));
    let s = summarize(&vec![10]);
    assert_eq!((s.min, s.max, s.mean, s.range), (10, 10, 10, 0));
    let s = summarize(&vec![0, 100]);
    assert_eq!((s.min, s.max, s.mean, s.range), (0, 100, 50, 50));
}

#[test]
fn single_threaded_run_counts_exactly() {
    let b = FunctionBenchmark::new();
    let mut barriers = Barriers::new(1);
    // One nanosecond per operation: the operation in progress when the
    // deadline is crossed is not counted, so ten nanoseconds count nine.
    let iters = b.run(5, 10, &mut barriers);
    assert_eq!(iters, 9);
    assert_eq!(barriers.not_ready, 0);
    assert_eq!(barriers.not_done, 0);
}

#[test]
fn single_threaded_run_with_empty_window_counts_nothing() {
    let b = FunctionBenchmark::default();
    let mut barriers = Barriers::new(1);
    assert_eq!(b.run(0, 0, &mut barriers), 0);
    assert_eq!(barriers.not_done, 0);
}

#[test]
fn single_threaded_count_grows_with_the_window() {
    let b = FunctionBenchmark::new();
    let mut first = Barriers::new(1);
    let mut second = Barriers::new(1);
    let short = b.run(7, 100, &mut first);
    let long = b.run(7, 250, &mut second);
    assert!(long >= short);
    assert_eq!((short, long), (99, 249));
}

#[test]
fn add_is_plain_addition() {
    assert_eq!(add(1, 2), 3);
    assert_eq!(add(0, 0), 0);
    let b = FunctionBenchmark::new();
    b.iterate(10);
}

#[test]
fn matmul_has_its_closed_form() {
    // Each cell of the combination holds dim * (lhs + rhs); the reported
    // total sums all dim * dim cells.
    assert_eq!(matmul(2, 3, 2), 2 * 2 * (2 * 5));
    assert_eq!(matmul(1, 0, 1), 1);
    assert_eq!(matmul64(7, 8), 64 * 64 * (64 * 15));
    assert_eq!(matmul128(0, 1), 128 * 128 * 128);
}

#[test]
fn addvec_adds_elementwise() {
    assert_eq!(addvec(7, 8), 15);
    assert_eq!(addvec(0, 0), 0);
    assert_eq!(addvec(1, 0x7fff_fffe), 0x7fff_ffff);
}

#[test]
fn clone_config_normalizes_cgroup_placement() {
    let c = CloneConfig::new(CloneBenchmarkType::Add, true, false, false, true);
    assert!(!c.clone_into_cgroup);
    let c = CloneConfig::new(CloneBenchmarkType::MatMul64, false, true, true, true);
    assert!(c.clone_into_cgroup);
    assert!(c.chenv);
}

#[test]
fn v8_benchmark_keeps_the_module_source() {
    let b = V8Benchmark::<NewIsolate>::new(b"(module)").expect("stored");
    assert_eq!(b.module, b"(module)".to_vec());
}
