//! The host/guest handoff: argument marshalling and the domain entry point.

use benchmark::guest::{guest_main, GuestError};
use benchmark::protocol::{decode_argv, EntryArgs, ProtocolError};
use benchmark::region::SharedRegion;
use benchmark::value::ImageError;

/// A region holding the add callable's image at offset 0 and room for
/// output slots afterwards.
fn lambda_region(slots: usize) -> SharedRegion {
    let mut region = SharedRegion::new(16 + 8 * slots);
    region.write_bytes(0, &vec![1, 0]);
    region
}

fn per_worker_argv(workers: u64, warmup: u64, duration: u64) -> Vec<u64> {
    // image offset, image length, warmup, duration, output offset, output
    // count, feature flag
    vec![0, 2, warmup, duration, 16, workers, 0]
}

#[test]
fn argv_five_words_decode() {
    let argv = vec![10, 20, 3, 40, 50];
    assert_eq!(
        decode_argv(&argv),
        Ok(EntryArgs::SharedSlot {
            image_offset: 10,
            image_len: 20,
            workers: 3,
            duration_ns: 40,
            output_offset: 50,
        })
    );
}

#[test]
fn argv_seven_words_decode() {
    let argv = vec![1, 2, 3, 4, 5, 6, 7];
    assert_eq!(
        decode_argv(&argv),
        Ok(EntryArgs::PerWorker {
            image_offset: 1,
            image_len: 2,
            warmup_ns: 3,
            duration_ns: 4,
            output_offset: 5,
            output_count: 6,
            feature_flag: 7,
        })
    );
}

#[test]
fn argv_unrecognized_shapes_fail() {
    for len in [0usize, 1, 2, 3, 4, 6, 8, 9] {
        let argv = vec![1u64; len];
        assert_eq!(decode_argv(&argv), Err(ProtocolError::BadShape));
    }
}

#[test]
fn shape_mismatch_fails_before_any_worker_runs() {
    let mut region = lambda_region(1);
    let argv = vec![0, 2, 0, 1_000_000, 16, 1];
    assert_eq!(
        guest_main(&mut region, &argv, 1000),
        Err(GuestError::BadShape)
    );
    // The region is untouched: nothing was measured, nothing written.
    assert_eq!(region.read_word(16), 0);
}

#[test]
fn non_callable_image_fails_before_measurement() {
    let mut region = SharedRegion::new(32);
    let mut image = vec![0u8];
    image.extend_from_slice(&7u64.to_le_bytes());
    region.write_bytes(0, &image);
    let argv = vec![0, 9, 0, 1_000_000, 16, 1, 0];
    assert_eq!(
        guest_main(&mut region, &argv, 1000),
        Err(GuestError::NotCallable)
    );
    assert_eq!(region.read_word(16), 0);
}

#[test]
fn malformed_image_fails_with_its_decode_error() {
    let mut region = SharedRegion::new(32);
    region.write_bytes(0, &vec![9, 9]);
    let argv = vec![0, 2, 0, 1_000, 16, 1, 0];
    assert_eq!(
        guest_main(&mut region, &argv, 1000),
        Err(GuestError::Image(ImageError::BadTag))
    );
}

#[test]
fn out_of_range_image_and_outputs_fail() {
    let mut region = lambda_region(1);
    let bad_image = vec![1000, 2, 0, 1_000, 16, 1, 0];
    assert_eq!(
        guest_main(&mut region, &bad_image, 1000),
        Err(GuestError::ImageBounds)
    );
    let bad_output = vec![0, 2, 0, 1_000, 1000, 1, 0];
    assert_eq!(
        guest_main(&mut region, &bad_output, 1000),
        Err(GuestError::OutputBounds)
    );
}

#[test]
fn zero_workers_and_zero_cost_fail() {
    let mut region = lambda_region(1);
    assert_eq!(
        guest_main(&mut region, &per_worker_argv(0, 0, 1_000), 1000),
        Err(GuestError::NoWorkers)
    );
    assert_eq!(
        guest_main(&mut region, &per_worker_argv(1, 0, 1_000), 0),
        Err(GuestError::Unsupported)
    );
}

#[test]
fn guest_writes_one_count_per_slot() {
    let mut region = lambda_region(2);
    let counts = guest_main(&mut region, &per_worker_argv(2, 0, 100_000), 1000)
        .expect("a clean run");
    assert_eq!(counts.len(), 2);
    assert_eq!(region.read_word(16), counts[0] as u64);
    assert_eq!(region.read_word(24), counts[1] as u64);
}

#[test]
fn shared_slot_shape_takes_the_last_count() {
    let mut region = lambda_region(1);
    // image offset, image length, worker count, duration, output offset
    let argv = vec![0, 2, 3, 100_000, 16];
    let counts =
        guest_main(&mut region, &argv, 1000).expect("a clean run");
    assert_eq!(counts.len(), 3);
    assert_eq!(region.read_word(16), counts[2] as u64);
}

