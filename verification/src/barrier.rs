//! Phase-transition counters coordinating workers without a central
//! coordinator.
//!
//! Two independent countdown counters are created per experiment, both
//! initialized to the worker count: `not_ready` tracks workers that have not
//! yet finished warmup, `not_done` tracks workers that have not yet finished
//! measuring.  Each counter only ever decreases, never below zero, and
//! reaching zero is a one-way, globally observable phase transition.

use vstd::prelude::*;

verus! {

/// The two countdown counters of one experiment.
pub struct Barriers {
    /// Workers that have not yet completed warmup.
    pub not_ready: usize,
    /// Workers that have not yet completed measurement.
    pub not_done: usize,
}

impl Barriers {
    /// Fresh counters for an experiment with `workers` workers.
    pub fn new(workers: usize) -> (b: Barriers)
        ensures
            b.not_ready == workers,
            b.not_done == workers,
    {
        Barriers { not_ready: workers, not_done: workers }
    }

    /// Called exactly once by each worker when its warmup completes.
    pub fn arrive_ready(&mut self)
        requires
            old(self).not_ready >= 1,
        ensures
            final(self).not_ready == old(self).not_ready - 1,
            final(self).not_done == old(self).not_done,
    {
        self.not_ready = self.not_ready - 1;
    }

    /// Called exactly once by each worker when its measurement completes.
    pub fn arrive_done(&mut self)
        requires
            old(self).not_done >= 1,
        ensures
            final(self).not_done == old(self).not_done - 1,
            final(self).not_ready == old(self).not_ready,
    {
        self.not_done = self.not_done - 1;
    }

    /// Polled by workers awaiting the start of the measurement phase.
    pub fn all_ready(&self) -> (r: bool)
        ensures
            r == (self.not_ready == 0),
    {
        self.not_ready == 0
    }

    /// Polled by draining workers awaiting the end of the measurement phase.
    pub fn all_done(&self) -> (r: bool)
        ensures
            r == (self.not_done == 0),
    {
        self.not_done == 0
    }
}

/// A single worker behaves like any member of a larger group in barrier
/// terms: with one worker, its own readiness arrival is the transition that
/// opens the measurement phase, so it proceeds without any spin.
pub proof fn lemma_single_worker_no_spin(b: Barriers, after: Barriers)
    requires
        b.not_ready == 1,
        after.not_ready == b.not_ready - 1,
    ensures
        after.not_ready == 0,
{
}

} // verus!
