//! The argument-marshalling convention across the isolation boundary.
//!
//! The domain's entry point receives a fixed-length vector of unsigned
//! integers.  Exactly two shapes are recognized; a vector of any other
//! length signals a host/guest protocol defect and must fail decoding, not
//! be recovered from.

use vstd::prelude::*;

verus! {

/// The decoded entry argument vector, one variant per recognized shape.
#[derive(Debug, Copy, Clone, PartialEq, Eq, Structural)]
pub enum EntryArgs {
    /// Five words: all workers share one output slot.
    SharedSlot {
        image_offset: u64,
        image_len: u64,
        workers: u64,
        duration_ns: u64,
        output_offset: u64,
    },
    /// Seven words: one output slot per worker, plus a platform toggle.
    PerWorker {
        image_offset: u64,
        image_len: u64,
        warmup_ns: u64,
        duration_ns: u64,
        output_offset: u64,
        output_count: u64,
        feature_flag: u64,
    },
}

/// The failure mode of entry-argument decoding.
#[derive(Debug, Copy, Clone, PartialEq, Eq, Structural)]
pub enum ProtocolError {
    /// The vector's length matches no recognized shape.
    BadShape,
}

/// Decode the entry argument vector.  Exactly the five- and seven-word
/// shapes are accepted, with their fields in the fixed order.
pub fn decode_argv(argv: &Vec<u64>) -> (r: Result<EntryArgs, ProtocolError>)
    ensures
        r is Ok <==> (argv@.len() == 5 || argv@.len() == 7),
        argv@.len() == 5 ==> r == Ok::<EntryArgs, ProtocolError>(
            (EntryArgs::SharedSlot {
                image_offset: argv@[0],
                image_len: argv@[1],
                workers: argv@[2],
                duration_ns: argv@[3],
                output_offset: argv@[4],
            }),
        ),
        argv@.len() == 7 ==> r == Ok::<EntryArgs, ProtocolError>(
            (EntryArgs::PerWorker {
                image_offset: argv@[0],
                image_len: argv@[1],
                warmup_ns: argv@[2],
                duration_ns: argv@[3],
                output_offset: argv@[4],
                output_count: argv@[5],
                feature_flag: argv@[6],
            }),
        ),
        !(argv@.len() == 5 || argv@.len() == 7) ==> r == Err::<EntryArgs, ProtocolError>(
            ProtocolError::BadShape,
        ),
{
    if argv.len() == 5 {
        Ok(
            EntryArgs::SharedSlot {
                image_offset: argv[0],
                image_len: argv[1],
                workers: argv[2],
                duration_ns: argv[3],
                output_offset: argv[4],
            },
        )
    } else if argv.len() == 7 {
        Ok(
            EntryArgs::PerWorker {
                image_offset: argv[0],
                image_len: argv[1],
                warmup_ns: argv[2],
                duration_ns: argv[3],
                output_offset: argv[4],
                output_count: argv[5],
                feature_flag: argv[6],
            },
        )
    } else {
        Err(ProtocolError::BadShape)
    }
}

} // verus!
