//! The lifecycle of one run: scan, dispatch the fetches, await them all,
//! drain the writer, and report.
use vstd::prelude::*;

verus! {

#[derive(Clone, Copy, Debug, PartialEq, Eq, Structural)]
pub enum Phase {
    Scanning,
    Dispatching,
    Awaiting,
    Draining,
    Done,
}

/// The counts reported at the end of a run.
#[derive(Clone, Copy, Debug, PartialEq, Eq, Structural)]
pub struct PipelineOutcome {
    /// Records found in the index.
    pub candidates: u64,
    /// Fetches launched.
    pub attempted: u64,
    pub succeeded: u64,
    pub failed: u64,
}

/// Why a run as a whole failed.
#[derive(Clone, Copy, Debug, PartialEq, Eq, Structural)]
pub enum RunError {
    /// The writer could not store a document.
    Write,
    /// More fetches failed than the configured limit allows.
    TooManyFailures,
}

/// Drives one run. Fetch failures are counted, never fatal by themselves
/// unless they exceed `failure_limit`; a writer failure is fatal.
pub struct Coordinator {
    pub phase: Phase,
    pub outcome: PipelineOutcome,
    pub failure_limit: Option<u64>,
    pub writer_failed: bool,
}

impl Coordinator {
    pub open spec fn finished(&self) -> int {
        self.outcome.succeeded + self.outcome.failed
    }

    pub open spec fn wf(&self) -> bool {
        &&& self.outcome.attempted <= self.outcome.candidates
        &&& self.finished() <= self.outcome.attempted
        &&& self.phase != Phase::Done ==> !self.writer_failed
        &&& match self.phase {
            Phase::Scanning => self.outcome == PipelineOutcome {
                candidates: 0,
                attempted: 0,
                succeeded: 0,
                failed: 0,
            },
            Phase::Dispatching => self.outcome.attempted > 0 && self.finished() == 0,
            Phase::Awaiting => self.finished() < self.outcome.attempted,
            Phase::Draining => self.finished() == self.outcome.attempted,
            Phase::Done => self.finished() == self.outcome.attempted,
        }
    }

    /// A run that has not scanned the index yet.
    pub fn new(failure_limit: Option<u64>) -> (r: Coordinator)
        ensures
            r.wf(),
            r.phase == Phase::Scanning,
            r.failure_limit == failure_limit,
            !r.writer_failed,
    {
        Coordinator {
            phase: Phase::Scanning,
            outcome: PipelineOutcome { candidates: 0, attempted: 0, succeeded: 0, failed: 0 },
            failure_limit,
            writer_failed: false,
        }
    }

    /// The index held `candidates` records, of which `work` are to be
    /// fetched. With nothing to fetch the run is done at once.
    pub fn scanned(&mut self, candidates: u64, work: u64)
        requires
            old(self).wf(),
            old(self).phase == Phase::Scanning,
            work <= candidates,
        ensures
            final(self).wf(),
            final(self).phase == if work == 0 { Phase::Done } else { Phase::Dispatching },
            final(self).outcome == (PipelineOutcome {
                candidates,
                attempted: work,
                succeeded: 0,
                failed: 0,
            }),
            final(self).failure_limit == old(self).failure_limit,
            final(self).writer_failed == old(self).writer_failed,
    {
        self.outcome.candidates = candidates;
        self.outcome.attempted = work;
        self.phase = if work == 0 { Phase::Done } else { Phase::Dispatching };
    }

    /// Every fetch has been launched.
    pub fn dispatched(&mut self)
        requires
            old(self).wf(),
            old(self).phase == Phase::Dispatching,
        ensures
            final(self).wf(),
            final(self).phase == Phase::Awaiting,
            final(self).outcome == old(self).outcome,
            final(self).failure_limit == old(self).failure_limit,
            final(self).writer_failed == old(self).writer_failed,
    {
        self.phase = Phase::Awaiting;
    }

    /// One fetch ended, in success or in terminal failure. Once all have
    /// ended, the handoff queue is to be closed and the writer drained.
    pub fn task_finished(&mut self, ok: bool)
        requires
            old(self).wf(),
            old(self).phase == Phase::Awaiting,
        ensures
            final(self).wf(),
            final(self).outcome.candidates == old(self).outcome.candidates,
            final(self).outcome.attempted == old(self).outcome.attempted,
            final(self).outcome.succeeded == old(self).outcome.succeeded + if ok { 1int } else { 0int },
            final(self).outcome.failed == old(self).outcome.failed + if ok { 0int } else { 1int },
            final(self).phase == if final(self).finished() == old(self).outcome.attempted {
                Phase::Draining
            } else {
                Phase::Awaiting
            },
            final(self).failure_limit == old(self).failure_limit,
            final(self).writer_failed == old(self).writer_failed,
    {
        if ok {
            self.outcome.succeeded = self.outcome.succeeded + 1;
        } else {
            self.outcome.failed = self.outcome.failed + 1;
        }
        if self.outcome.succeeded + self.outcome.failed == self.outcome.attempted {
            self.phase = Phase::Draining;
        }
    }

    /// The writer stopped after draining the queue, having stored every
    /// document (`ok`) or having failed on one.
    pub fn writer_finished(&mut self, ok: bool)
        requires
            old(self).wf(),
            old(self).phase == Phase::Draining,
        ensures
            final(self).wf(),
            final(self).phase == Phase::Done,
            final(self).outcome == old(self).outcome,
            final(self).failure_limit == old(self).failure_limit,
            final(self).writer_failed == !ok,
    {
        self.writer_failed = !ok;
        self.phase = Phase::Done;
    }

    /// The result of a finished run: a writer failure first, then too many
    /// failed fetches, else the counts.
    pub fn verdict(&self) -> (r: Result<PipelineOutcome, RunError>)
        requires
            self.wf(),
            self.phase == Phase::Done,
        ensures
            r == if self.writer_failed {
                Err::<PipelineOutcome, RunError>(RunError::Write)
            } else if self.failure_limit matches Some(l) && self.outcome.failed > l {
                Err(RunError::TooManyFailures)
            } else {
                Ok(self.outcome)
            },
            r matches Ok(o) ==> o.succeeded + o.failed == o.attempted,
    {
        if self.writer_failed {
            return Err(RunError::Write);
        }
        match self.failure_limit {
            Some(l) => if self.outcome.failed > l {
                return Err(RunError::TooManyFailures);
            },
            None => {},
        }
        Ok(self.outcome)
    }
}

} // verus!
