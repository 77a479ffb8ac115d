//! The course of a batch: from the scan of the input tree to the tally of
//! what was compressed and what failed.

use crate::compressor::{
    path_views, planned_tasks, process_directory, task_views, CompressError, CompressionTask,
    Failure,
};
use vstd::prelude::*;

verus! {

/// Where a batch stands.
#[derive(Clone, Copy, Debug, PartialEq, Eq, Structural)]
pub enum Phase {
    /// Nothing has begun.
    Idle,
    /// The input tree is being walked.
    Scanning,
    /// The tasks are known and are being handed to the workers.
    Dispatching,
    /// Every task is with the workers; some have not come back.
    Draining,
    /// Every task has come back.
    Done,
}

/// A batch as plain values: its phase, the number of its tasks, the number
/// of those that succeeded, and the failures in the order they came back.
pub struct BatchModel {
    pub phase: Phase,
    pub total: nat,
    pub processed: nat,
    pub failures: Seq<Failure>,
}

/// How the work on one file ended, as plain values: `None` for a success.
pub open spec fn outcome_view(outcome: Result<(), CompressError>) -> Option<Failure> {
    match outcome {
        Ok(_) => None,
        Err(error) => Some(error@),
    }
}

/// The number of successes among `outcomes`.
pub open spec fn successes(outcomes: Seq<Option<Failure>>) -> nat
    decreases outcomes.len(),
{
    if outcomes.len() == 0 {
        0
    } else {
        successes(outcomes.drop_last()) + if outcomes.last() is None {
            1nat
        } else {
            0nat
        }
    }
}

/// The failures among `outcomes`, in their order.
pub open spec fn failures_among(outcomes: Seq<Option<Failure>>) -> Seq<Failure>
    decreases outcomes.len(),
{
    if outcomes.len() == 0 {
        seq![]
    } else {
        match outcomes.last() {
            Some(failure) => failures_among(outcomes.drop_last()).push(failure),
            None => failures_among(outcomes.drop_last()),
        }
    }
}

impl BatchModel {
    /// A batch before anything has begun.
    pub open spec fn idle() -> BatchModel {
        BatchModel { phase: Phase::Idle, total: 0, processed: 0, failures: seq![] }
    }

    /// The number of failures.
    pub open spec fn failed(self) -> nat {
        self.failures.len()
    }

    /// The number of tasks that have come back.
    pub open spec fn completed(self) -> nat {
        self.processed + self.failures.len()
    }

    /// What holds of a batch in each phase: nothing has come back before the
    /// tasks are with the workers, some are still out while it drains, and
    /// all are back when it is done.
    pub open spec fn wf(self) -> bool {
        match self.phase {
            Phase::Idle | Phase::Scanning => self.total == 0 && self.completed() == 0,
            Phase::Dispatching => self.completed() == 0,
            Phase::Draining => self.completed() < self.total,
            Phase::Done => self.completed() == self.total,
        }
    }

    /// The scan begins, if nothing has begun yet and the input directory is
    /// there.
    pub open spec fn started(self, input_exists: bool) -> BatchModel {
        if self.phase == Phase::Idle && input_exists {
            BatchModel { phase: Phase::Scanning, ..self }
        } else {
            self
        }
    }

    /// The scan ends with `eligible` tasks.
    pub open spec fn scanned(self, eligible: nat) -> BatchModel {
        if self.phase == Phase::Scanning {
            BatchModel { phase: Phase::Dispatching, total: eligible, ..self }
        } else {
            self
        }
    }

    /// Every task is with the workers: the batch drains, or is done at once
    /// where it has no task.
    pub open spec fn dispatched(self) -> BatchModel {
        if self.phase == Phase::Dispatching {
            BatchModel {
                phase: if self.total == 0 {
                    Phase::Done
                } else {
                    Phase::Draining
                },
                ..self
            }
        } else {
            self
        }
    }

    /// One task comes back. A failure is logged and stops nothing; the batch
    /// is done with the last task.
    pub open spec fn finished_one(self, outcome: Option<Failure>) -> BatchModel {
        if self.phase == Phase::Draining {
            let recorded = match outcome {
                None => BatchModel { processed: self.processed + 1, ..self },
                Some(failure) => BatchModel { failures: self.failures.push(failure), ..self },
            };
            if recorded.completed() == recorded.total {
                BatchModel { phase: Phase::Done, ..recorded }
            } else {
                recorded
            }
        } else {
            self
        }
    }

    /// The tasks come back one after the other with `outcomes`.
    pub open spec fn drained(self, outcomes: Seq<Option<Failure>>) -> BatchModel
        decreases outcomes.len(),
    {
        if outcomes.len() == 0 {
            self
        } else {
            self.drained(outcomes.drop_last()).finished_one(outcomes.last())
        }
    }
}

/// No step takes a batch out of what holds of its phase, changes the number
/// of its tasks once they are with the workers, or takes back a task that
/// has come back.
pub proof fn lemma_steps_keep_order(
    batch: BatchModel,
    input_exists: bool,
    eligible: nat,
    outcome: Option<Failure>,
)
    requires
        batch.wf(),
    ensures
        batch.started(input_exists).wf(),
        batch.scanned(eligible).wf(),
        batch.dispatched().wf(),
        batch.finished_one(outcome).wf(),
        batch.dispatched().total == batch.total,
        batch.finished_one(outcome).total == batch.total,
        batch.completed() <= batch.finished_one(outcome).completed() <= batch.completed() + 1,
        batch.finished_one(outcome).completed() <= batch.total,
        batch.phase == Phase::Draining ==> batch.finished_one(outcome).completed()
            == batch.completed() + 1,
{
}

/// A draining batch counts what comes back: each success is one more
/// processed file, each failure one more line of the log, in the order they
/// come back. It is done exactly when as many tasks have come back as went
/// out, however many of them failed.
pub proof fn lemma_drain_tallies(batch: BatchModel, outcomes: Seq<Option<Failure>>)
    requires
        batch.wf(),
        batch.phase == Phase::Draining,
        batch.completed() + outcomes.len() <= batch.total,
    ensures
        ({
            let end = batch.drained(outcomes);
            &&& end.wf()
            &&& end.total == batch.total
            &&& end.processed == batch.processed + successes(outcomes)
            &&& end.failures == batch.failures + failures_among(outcomes)
            &&& successes(outcomes) + failures_among(outcomes).len() == outcomes.len()
            &&& end.phase == if batch.completed() + outcomes.len() == batch.total {
                Phase::Done
            } else {
                Phase::Draining
            }
        }),
    decreases outcomes.len(),
{
    if outcomes.len() > 0 {
        lemma_drain_tallies(batch, outcomes.drop_last());
        assert(batch.drained(outcomes).failures =~= batch.failures + failures_among(outcomes));
    } else {
        assert(batch.failures + failures_among(outcomes) =~= batch.failures);
    }
}

/// A list of outcomes of which one is a failure and all others are
/// successes counts one success less than its length, and its only failure.
pub proof fn lemma_single_failure(outcomes: Seq<Option<Failure>>, bad: int)
    requires
        0 <= bad < outcomes.len(),
        outcomes[bad] is Some,
        forall|k: int| 0 <= k < outcomes.len() && k != bad ==> outcomes[k] is None,
    ensures
        successes(outcomes) == outcomes.len() - 1,
        failures_among(outcomes) == seq![outcomes[bad]->0],
    decreases outcomes.len(),
{
    let front = outcomes.drop_last();
    if bad == outcomes.len() - 1 {
        lemma_all_successes(front);
        assert(failures_among(outcomes) =~= seq![outcomes[bad]->0]);
    } else {
        lemma_single_failure(front, bad);
    }
}

/// A list of successes counts its length and no failure.
pub proof fn lemma_all_successes(outcomes: Seq<Option<Failure>>)
    requires
        forall|k: int| 0 <= k < outcomes.len() ==> outcomes[k] is None,
    ensures
        successes(outcomes) == outcomes.len(),
        failures_among(outcomes) == Seq::<Failure>::empty(),
    decreases outcomes.len(),
{
    if outcomes.len() > 0 {
        lemma_all_successes(outcomes.drop_last());
    }
}

/// One file that fails among files that succeed stops nothing: the batch
/// runs to its end, counts every other file as processed, and logs the one
/// failure.
pub proof fn lemma_one_failure_stops_nothing(
    batch: BatchModel,
    outcomes: Seq<Option<Failure>>,
    bad: int,
)
    requires
        batch.phase == Phase::Draining,
        batch.completed() == 0,
        batch.total == outcomes.len(),
        0 <= bad < outcomes.len(),
        outcomes[bad] is Some,
        forall|k: int| 0 <= k < outcomes.len() && k != bad ==> outcomes[k] is None,
    ensures
        batch.drained(outcomes).phase == Phase::Done,
        batch.drained(outcomes).processed == outcomes.len() - 1,
        batch.drained(outcomes).failures == seq![outcomes[bad]->0],
{
    lemma_drain_tallies(batch, outcomes);
    lemma_single_failure(outcomes, bad);
    assert(batch.failures =~= Seq::<Failure>::empty());
    assert(batch.failures + failures_among(outcomes) =~= failures_among(outcomes));
}

/// Why a batch did not begin.
#[derive(Debug, PartialEq, Eq)]
pub enum BatchError {
    /// The input directory is not there.
    DirectoryNotFound { path: String },
    /// The batch had begun before.
    AlreadyStarted,
}

/// Why a batch did not begin, as plain values.
pub enum BatchErrorView {
    DirectoryNotFound { path: Seq<char> },
    AlreadyStarted,
}

impl View for BatchError {
    type V = BatchErrorView;

    open spec fn view(&self) -> BatchErrorView {
        match self {
            BatchError::DirectoryNotFound { path } => BatchErrorView::DirectoryNotFound {
                path: path@,
            },
            BatchError::AlreadyStarted => BatchErrorView::AlreadyStarted,
        }
    }
}

/// How far a batch has come: the tasks that have come back, of how many.
#[derive(Clone, Copy, Debug, PartialEq, Eq, Structural)]
pub struct ProgressState {
    pub completed: usize,
    pub total: usize,
}

/// A list of failures, as plain values.
pub open spec fn failure_views(failures: Seq<CompressError>) -> Seq<Failure> {
    failures.map_values(|error: CompressError| error@)
}

/// The counts of a batch and the log of its failures.
pub struct BatchResult {
    processed: usize,
    failures: Vec<CompressError>,
}

impl BatchResult {
    /// The number of files that were compressed.
    pub closed spec fn spec_processed(&self) -> nat {
        self.processed as nat
    }

    /// The failures, in the order they came back.
    pub closed spec fn spec_failures(&self) -> Seq<Failure> {
        failure_views(self.failures@)
    }

    /// The number of files that were compressed.
    pub fn processed(&self) -> (processed: usize)
        ensures
            processed == self.spec_processed(),
    {
        self.processed
    }

    /// The number of files that failed.
    pub fn failed(&self) -> (failed: usize)
        ensures
            failed == self.spec_failures().len(),
    {
        self.failures.len()
    }

    /// The failures, in the order they came back.
    pub fn failures(&self) -> (failures: &Vec<CompressError>)
        ensures
            failure_views(failures@) == self.spec_failures(),
    {
        &self.failures
    }
}

/// Leads a batch through its phases and keeps its tally. Events that do not
/// belong to the phase the batch is in change nothing.
pub struct BatchOrchestrator {
    phase: Phase,
    total: usize,
    result: BatchResult,
}

impl View for BatchOrchestrator {
    type V = BatchModel;

    closed spec fn view(&self) -> BatchModel {
        BatchModel {
            phase: self.phase,
            total: self.total as nat,
            processed: self.result.spec_processed(),
            failures: self.result.spec_failures(),
        }
    }
}

impl BatchOrchestrator {
    /// What holds of every orchestrator.
    pub open spec fn wf(&self) -> bool {
        self@.wf()
    }

    /// An orchestrator whose batch has not begun.
    pub fn new() -> (orchestrator: BatchOrchestrator)
        ensures
            orchestrator.wf(),
            orchestrator@ == BatchModel::idle(),
    {
        let orchestrator = BatchOrchestrator {
            phase: Phase::Idle,
            total: 0,
            result: BatchResult { processed: 0, failures: Vec::new() },
        };
        assert(orchestrator@.failures =~= Seq::<Failure>::empty());
        orchestrator
    }

    /// Begins the scan of `input_dir`. A batch begins once, and only where
    /// its input directory is there.
    pub fn start(&mut self, input_dir: &str, input_exists: bool) -> (begun: Result<(), BatchError>)
        requires
            old(self).wf(),
        ensures
            final(self).wf(),
            final(self)@ == old(self)@.started(input_exists),
            begun is Ok <==> old(self)@.phase == Phase::Idle && input_exists,
            begun matches Err(error) ==> error@ == if old(self)@.phase != Phase::Idle {
                BatchErrorView::AlreadyStarted
            } else {
                BatchErrorView::DirectoryNotFound { path: input_dir@ }
            },
    {
        match self.phase {
            Phase::Idle => {
                if input_exists {
                    self.phase = Phase::Scanning;
                    Ok(())
                } else {
                    Err(BatchError::DirectoryNotFound { path: input_dir.to_owned() })
                }
            },
            _ => Err(BatchError::AlreadyStarted),
        }
    }

    /// Ends the scan: takes the files found under `input_dir` and gives the
    /// tasks of the batch, whose number is its total from here on. Outside a
    /// scan it gives no task.
    pub fn scanned(&mut self, input_dir: &str, output_dir: &str, files: &Vec<String>) -> (tasks:
        Vec<CompressionTask>)
        requires
            old(self).wf(),
        ensures
            final(self).wf(),
            final(self)@ == old(self)@.scanned(tasks@.len()),
            old(self)@.phase == Phase::Scanning ==> task_views(tasks@) == planned_tasks(
                input_dir@,
                output_dir@,
                path_views(files@),
            ),
            old(self)@.phase != Phase::Scanning ==> tasks@.len() == 0,
    {
        match self.phase {
            Phase::Scanning => {
                let tasks = process_directory(input_dir, output_dir, files);
                self.total = tasks.len();
                self.phase = Phase::Dispatching;
                tasks
            },
            _ => Vec::new(),
        }
    }

    /// Notes that every task is with the workers. Tells whether the batch
    /// was dispatching.
    pub fn dispatched(&mut self) -> (accepted: bool)
        requires
            old(self).wf(),
        ensures
            final(self).wf(),
            final(self)@ == old(self)@.dispatched(),
            accepted == (old(self)@.phase == Phase::Dispatching),
    {
        match self.phase {
            Phase::Dispatching => {
                self.phase = if self.total == 0 {
                    Phase::Done
                } else {
                    Phase::Draining
                };
                true
            },
            _ => false,
        }
    }

    /// Notes that one task has come back with `outcome`. Tells whether the
    /// batch was draining.
    pub fn task_completed(&mut self, outcome: Result<(), CompressError>) -> (accepted: bool)
        requires
            old(self).wf(),
        ensures
            final(self).wf(),
            final(self)@ == old(self)@.finished_one(outcome_view(outcome)),
            accepted == (old(self)@.phase == Phase::Draining),
    {
        match self.phase {
            Phase::Draining => {
                let ghost before = self.result.spec_failures();
                match outcome {
                    Ok(_) => {
                        self.result.processed = self.result.processed + 1;
                    },
                    Err(error) => {
                        self.result.failures.push(error);
                        assert(self.result.spec_failures() =~= before.push(error@));
                    },
                }
                if self.result.processed + self.result.failures.len() == self.total {
                    self.phase = Phase::Done;
                }
                true
            },
            _ => false,
        }
    }

    /// The phase the batch is in.
    pub fn phase(&self) -> (phase: Phase)
        ensures
            phase == self@.phase,
    {
        self.phase
    }

    /// Tells whether every task has come back.
    pub fn is_done(&self) -> (done: bool)
        ensures
            done == (self@.phase == Phase::Done),
    {
        match self.phase {
            Phase::Done => true,
            _ => false,
        }
    }

    /// How far the batch has come.
    pub fn progress(&self) -> (progress: ProgressState)
        requires
            self.wf(),
        ensures
            progress.completed == self@.completed(),
            progress.total == self@.total,
            progress.completed <= progress.total,
    {
        ProgressState {
            completed: self.result.processed + self.result.failures.len(),
            total: self.total,
        }
    }

    /// The counts and the failure log of the batch so far.
    pub fn result(&self) -> (result: &BatchResult)
        ensures
            result.spec_processed() == self@.processed,
            result.spec_failures() == self@.failures,
    {
        &self.result
    }
}

} // verus!
