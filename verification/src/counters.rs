//! Run counters and the completion barrier.
//!
//! The counters aggregate, per run, how many files were dispatched, how many
//! failed anonymization and how many were passed through unparsed. The
//! barrier separates "the write was scheduled" from "the write finished": a
//! run is complete only once every registered deferred write has finished.

use vstd::prelude::*;

verus! {

/// The three run-wide counters, plus the size of the discovered set.
pub struct RunCounters {
    /// Number of files discovered for this run.
    pub total: u64,
    /// Number of files dispatched so far, whatever their outcome.
    pub dispatched: u64,
    /// Number of files whose anonymization failed.
    pub failed: u64,
    /// Number of non-parseable files passed through unchanged.
    pub passthrough: u64,
}

impl RunCounters {
    /// The counter invariant: failures and passthroughs never exceed what
    /// was dispatched, and nothing is dispatched beyond the discovered set.
    pub open spec fn wf(self) -> bool {
        self.failed + self.passthrough <= self.dispatched <= self.total
    }

    /// Creates the counters of a fresh run over `total` discovered files.
    pub fn new(total: u64) -> (r: RunCounters)
        ensures
            r.wf(),
            r.total == total,
            r.dispatched == 0,
            r.failed == 0,
            r.passthrough == 0,
    {
        RunCounters { total, dispatched: 0, failed: 0, passthrough: 0 }
    }

    /// Records one non-parseable file routed to passthrough copy.
    pub fn record_passthrough(&mut self)
        requires
            old(self).wf(),
            old(self).dispatched < old(self).total,
        ensures
            final(self).wf(),
            final(self).total == old(self).total,
            final(self).dispatched == old(self).dispatched + 1,
            final(self).failed == old(self).failed,
            final(self).passthrough == old(self).passthrough + 1,
    {
        self.passthrough = self.passthrough + 1;
        self.dispatched = self.dispatched + 1;
    }

    /// Records one parseable file whose anonymization failed, routed to
    /// quarantine copy.
    pub fn record_quarantine(&mut self)
        requires
            old(self).wf(),
            old(self).dispatched < old(self).total,
        ensures
            final(self).wf(),
            final(self).total == old(self).total,
            final(self).dispatched == old(self).dispatched + 1,
            final(self).failed == old(self).failed + 1,
            final(self).passthrough == old(self).passthrough,
    {
        self.failed = self.failed + 1;
        self.dispatched = self.dispatched + 1;
    }

    /// Records one file fully anonymized, its write scheduled.
    pub fn record_scheduled(&mut self)
        requires
            old(self).wf(),
            old(self).dispatched < old(self).total,
        ensures
            final(self).wf(),
            final(self).total == old(self).total,
            final(self).dispatched == old(self).dispatched + 1,
            final(self).failed == old(self).failed,
            final(self).passthrough == old(self).passthrough,
    {
        self.dispatched = self.dispatched + 1;
    }
}

/// The completion barrier: counts deferred writes registered and finished.
pub struct CompletionBarrier {
    registered: u64,
    finished: u64,
}

impl CompletionBarrier {
    /// How many deferred writes have been registered.
    pub closed spec fn spec_registered(self) -> u64 {
        self.registered
    }

    /// How many deferred writes have finished.
    pub closed spec fn spec_finished(self) -> u64 {
        self.finished
    }

    /// The barrier invariant: no write finishes unregistered.
    pub open spec fn wf(self) -> bool {
        self.spec_finished() <= self.spec_registered()
    }

    /// Creates the barrier of a fresh run, with nothing registered.
    pub fn new() -> (r: CompletionBarrier)
        ensures
            r.wf(),
            r.spec_registered() == 0,
            r.spec_finished() == 0,
    {
        CompletionBarrier { registered: 0, finished: 0 }
    }

    /// Registers one deferred write before it is scheduled.
    pub fn register(&mut self)
        requires
            old(self).wf(),
            old(self).spec_registered() < u64::MAX,
        ensures
            final(self).wf(),
            final(self).spec_registered() == old(self).spec_registered() + 1,
            final(self).spec_finished() == old(self).spec_finished(),
    {
        self.registered = self.registered + 1;
    }

    /// Records that one registered deferred write has finished.
    pub fn finish_one(&mut self)
        requires
            old(self).wf(),
            old(self).spec_finished() < old(self).spec_registered(),
        ensures
            final(self).wf(),
            final(self).spec_registered() == old(self).spec_registered(),
            final(self).spec_finished() == old(self).spec_finished() + 1,
    {
        self.finished = self.finished + 1;
    }

    /// Whether every registered deferred write has finished: only then may
    /// the run report completion.
    pub fn all_finished(&self) -> (r: bool)
        ensures
            r == (self.spec_finished() == self.spec_registered()),
    {
        self.finished == self.registered
    }
}

} // verus!
