//! The managed-engine backend's host-side data.
//!
//! The engine itself is an external collaborator: compiling and invoking the
//! module is its work, done where it runs.  What belongs to the library is
//! the choice of sharing mode and the module bytes each mode is built
//! around.

use vstd::prelude::*;
use crate::guest::BenchError;

verus! {

/// How execution contexts are shared across calls.
pub trait V8Mode {

}

/// One isolate and one context, reused for every call.
pub struct SameIsolateSameContext;

impl V8Mode for SameIsolateSameContext {

}

/// One isolate reused across calls, with a fresh context per call.
pub struct SameIsolateNewContext;

impl V8Mode for SameIsolateNewContext {

}

/// A fresh isolate (and context) per call.
pub struct NewIsolate;

impl V8Mode for NewIsolate {

}

/// A benchmark that runs the module under a managed engine, in the sharing
/// mode the type parameter names.
pub struct V8Benchmark<MODE: V8Mode> {
    /// The module source handed to the engine.
    pub module: Vec<u8>,
    pub _mode: core::marker::PhantomData<MODE>,
}

impl<MODE: V8Mode> V8Benchmark<MODE> {
    /// Keep the module source; the engine compiles it where it runs.
    /// Keeping the bytes cannot fail.
    pub fn new(wat: &[u8]) -> (r: Result<Self, BenchError>)
        ensures
            r is Ok,
            r matches Ok(b) ==> b.module@ == wat@,
    {
        let mut module: Vec<u8> = Vec::new();
        module.extend_from_slice(wat);
        Ok(V8Benchmark { module, _mode: core::marker::PhantomData })
    }
}

} // verus!
