//! The workers that run tasks: how a worker finds its next task, and how a task that has
//! ended is put on record.
//!
//! An executor starts only once the record says that its task runs; and an end is told
//! only once the record of it has been stored. Where storing fails it is tried again
//! until it succeeds or the manager shuts down.
use vstd::prelude::*;
use vstd::string::*;

use crate::failure::Failure;
use crate::task::{needs_artifact, TaskExecutionResult, TaskRecord, ARTIFACT_THRESHOLD};
use crate::task_events::{finish_record, is_finished, is_settled, settle_result};
use crate::text::{join2, text_opt, utf8_len};
use crate::time::Timestamp;

verus! {

// Workers --------------------------------------------------------------------
/// Where a worker stands: what it waits for.
#[derive(Debug, Clone, Copy, PartialEq, Eq, Structural)]
pub enum WorkerStage {
    /// Its next turn.
    Idle,
    /// The head of the queue.
    Looking,
    /// The record that says that the task runs.
    Starting,
    /// The task's end.
    Running,
    /// Another try at storing.
    BackingOff,
    /// Work.
    Waiting,
    Done,
}

/// What happened since the last step.
#[derive(Debug, Clone, Copy, PartialEq, Eq, Structural)]
pub enum WorkerEvent {
    /// The worker's turn has come.
    Turn { shutdown: bool },
    /// The queue was looked at: whether a task waits.
    Looked { found: bool },
    /// The record that says that the task runs was stored, or could not be.
    StartStored { stored: bool },
    /// The task has ended.
    Executed,
    /// The wait is over.
    Woken { shutdown: bool },
}

/// What to do next.
#[derive(Debug, Clone, Copy, PartialEq, Eq, Structural)]
pub enum WorkerAction {
    /// Look for a task that waits.
    Look,
    /// Store the record that says that the task runs.
    StoreStart,
    /// Run the task.
    Execute,
    /// Wait a moment, or until the manager shuts down.
    BackOff,
    /// Wait for work, or until the manager shuts down.
    Wait,
    /// Take the next turn.
    Again,
    Exit,
}

/// What [`Worker::step`] does.
pub open spec fn worker_step(stage: WorkerStage, event: WorkerEvent) -> (WorkerStage, WorkerAction) {
    match event {
        WorkerEvent::Turn { shutdown } => if shutdown {
            (WorkerStage::Done, WorkerAction::Exit)
        } else {
            (WorkerStage::Looking, WorkerAction::Look)
        },
        WorkerEvent::Looked { found } => if found {
            (WorkerStage::Starting, WorkerAction::StoreStart)
        } else {
            (WorkerStage::Waiting, WorkerAction::Wait)
        },
        WorkerEvent::StartStored { stored } => if stored {
            (WorkerStage::Running, WorkerAction::Execute)
        } else {
            (WorkerStage::BackingOff, WorkerAction::BackOff)
        },
        WorkerEvent::Executed => (WorkerStage::Idle, WorkerAction::Again),
        WorkerEvent::Woken { shutdown } => if shutdown {
            (WorkerStage::Done, WorkerAction::Exit)
        } else {
            (WorkerStage::Idle, WorkerAction::Again)
        },
    }
}

/// Whether a worker waits for an event of this sort.
pub open spec fn worker_expects(stage: WorkerStage, event: WorkerEvent) -> bool {
    match event {
        WorkerEvent::Turn { .. } => stage is Idle,
        WorkerEvent::Looked { .. } => stage is Looking,
        WorkerEvent::StartStored { .. } => stage is Starting,
        WorkerEvent::Executed => stage is Running,
        WorkerEvent::Woken { .. } => stage is BackingOff || stage is Waiting,
    }
}

/// A worker.
#[derive(Debug)]
pub struct Worker {
    pub stage: WorkerStage,
}

impl Worker {
    /// A worker that waits for its first turn.
    pub fn new() -> (r: Self)
        ensures
            r.stage is Idle,
    {
        Worker { stage: WorkerStage::Idle }
    }

    /// Takes what happened and says what to do next.
    pub fn step(&mut self, event: WorkerEvent) -> (r: WorkerAction)
        requires
            worker_expects(old(self).stage, event),
        ensures
            (final(self).stage, r) == worker_step(old(self).stage, event),
    {
        let (stage, action) = match event {
            WorkerEvent::Turn { shutdown } => if shutdown {
                (WorkerStage::Done, WorkerAction::Exit)
            } else {
                (WorkerStage::Looking, WorkerAction::Look)
            },
            WorkerEvent::Looked { found } => if found {
                (WorkerStage::Starting, WorkerAction::StoreStart)
            } else {
                (WorkerStage::Waiting, WorkerAction::Wait)
            },
            WorkerEvent::StartStored { stored } => if stored {
                (WorkerStage::Running, WorkerAction::Execute)
            } else {
                (WorkerStage::BackingOff, WorkerAction::BackOff)
            },
            WorkerEvent::Executed => (WorkerStage::Idle, WorkerAction::Again),
            WorkerEvent::Woken { shutdown } => if shutdown {
                (WorkerStage::Done, WorkerAction::Exit)
            } else {
                (WorkerStage::Idle, WorkerAction::Again)
            },
        };
        self.stage = stage;
        action
    }
}

// Ends -----------------------------------------------------------------------
/// Where the end of a task stands: what it waits for.
#[derive(Debug)]
pub enum FinishStage {
    New,
    /// The file with a large result.
    WritingArtifact,
    /// Another try at writing it.
    ArtifactBackOff { error: String },
    /// The record of the end.
    Saving,
    /// Another try at storing it.
    SaveBackOff { error: String },
    Done,
}

/// What happened since the last step.
#[derive(Debug)]
pub enum FinishEvent {
    Begun,
    /// The file was written, to that path, or could not be.
    ArtifactWritten(Result<String, String>),
    /// The record was stored and taken in, or could not be stored.
    Saved(Result<(), String>),
    /// The manager no longer knows the task.
    Gone,
    /// The wait is over.
    Waited { shutdown: bool },
}

/// What to do next.
#[derive(Debug)]
pub enum FinishAction {
    /// Write the result's text to a file.
    WriteArtifact,
    /// Store the task as [`Finishing::record`] ends it, and take that in.
    Save,
    /// Wait a moment, or until the manager shuts down.
    BackOff,
    Finish,
    Fail(Failure),
}

/// A task that comes to its end.
#[derive(Debug)]
pub struct Finishing {
    pub task_id: String,
    pub result: TaskExecutionResult,
    pub mode_label: String,
    pub detail_path: Option<String>,
    pub now: Timestamp,
    pub stage: FinishStage,
}

/// A result whose text is put into a file.
pub open spec fn is_large(result: TaskExecutionResult) -> bool {
    result.result_text matches Some(text) && utf8_len(text@) >= ARTIFACT_THRESHOLD
}

/// The words that say that the manager shut down first.
pub open spec fn not_durable(what: Seq<char>, task_id: Seq<char>, error: Seq<char>) -> Seq<char> {
    "Task manager shut down before terminal "@ + what + " for "@ + task_id + " was durable: "@
        + error
}

/// Only the stage and the path of the file may differ.
pub open spec fn same_end(f: Finishing, next: Finishing) -> bool {
    next == (Finishing { stage: next.stage, detail_path: next.detail_path, ..f })
}

/// What [`Finishing::step`] does.
pub open spec fn finish_step(
    f: Finishing,
    event: FinishEvent,
    next: Finishing,
    action: FinishAction,
) -> bool {
    &&& same_end(f, next)
    &&& event is ArtifactWritten || next.detail_path == f.detail_path
    &&& match event {
        FinishEvent::Begun => if is_large(f.result) {
            next.stage is WritingArtifact && action is WriteArtifact
        } else {
            next.stage is Saving && action is Save
        },
        FinishEvent::ArtifactWritten(Ok(path)) => next.detail_path == Some(path)
            && next.stage is Saving && action is Save,
        FinishEvent::ArtifactWritten(Err(error)) => next.detail_path == f.detail_path
            && next.stage == (FinishStage::ArtifactBackOff { error }) && action is BackOff,
        FinishEvent::Saved(Ok(_)) => next.stage is Done && action is Finish,
        FinishEvent::Saved(Err(error)) => next.stage == (FinishStage::SaveBackOff { error })
            && action is BackOff,
        FinishEvent::Gone => next.stage is Done && action is Finish,
        FinishEvent::Waited { shutdown } => match f.stage {
            FinishStage::ArtifactBackOff { error } => if shutdown {
                next.stage is Done && (action matches FinishAction::Fail(e) && e@ == not_durable(
                    "artifact"@,
                    f.task_id@,
                    error@,
                ))
            } else {
                next.stage is WritingArtifact && action is WriteArtifact
            },
            FinishStage::SaveBackOff { error } => if shutdown {
                next.stage is Done && (action matches FinishAction::Fail(e) && e@ == not_durable(
                    "state"@,
                    f.task_id@,
                    error@,
                ))
            } else {
                next.stage is Saving && action is Save
            },
            _ => false,
        },
    }
}

fn shut_down(what: &str, task_id: &str, error: &str) -> (r: Failure)
    ensures
        r@ == not_durable(what@, task_id@, error@),
{
    let mut message = join2("Task manager shut down before terminal ", what);
    message.append(" for ");
    message.append(task_id);
    message.append(" was durable: ");
    message.append(error);
    Failure { message }
}

impl Finishing {
    /// The end of a task, with what its executor handed back. `cancelled` says whether the
    /// task had been told to stop.
    pub fn new(
        task_id: String,
        result: TaskExecutionResult,
        cancelled: bool,
        mode_label: String,
        now: Timestamp,
    ) -> (r: Self)
        ensures
            is_settled(result, cancelled, r.result),
            r.result.status.terminal(),
            r == (Finishing {
                task_id,
                result: r.result,
                mode_label,
                detail_path: None,
                now,
                stage: FinishStage::New,
            }),
    {
        Finishing {
            task_id,
            result: settle_result(result, cancelled),
            mode_label,
            detail_path: None,
            now,
            stage: FinishStage::New,
        }
    }

    /// Whether the end waits for an event of this sort.
    pub open spec fn expects(self, event: FinishEvent) -> bool {
        match event {
            FinishEvent::Begun => self.stage is New,
            FinishEvent::ArtifactWritten(_) => self.stage is WritingArtifact,
            FinishEvent::Saved(_) => self.stage is Saving,
            FinishEvent::Gone => self.stage is Saving,
            FinishEvent::Waited { .. } => self.stage is ArtifactBackOff || self.stage
                is SaveBackOff,
        }
    }

    /// The record of the task, ended.
    pub fn record(&self, task: TaskRecord) -> (r: TaskRecord)
        requires
            self.result.status.terminal(),
        ensures
            is_finished(
                task,
                self.result,
                self.mode_label@,
                text_opt(self.detail_path),
                self.now,
                r,
            ),
    {
        finish_record(task, &self.result, self.mode_label.as_str(), &self.detail_path, self.now)
    }

    /// Takes what happened and says what to do next.
    pub fn step(&mut self, event: FinishEvent) -> (r: FinishAction)
        requires
            old(self).expects(event),
        ensures
            finish_step(*old(self), event, *final(self), r),
    {
        match event {
            FinishEvent::Begun => {
                let large = match &self.result.result_text {
                    Some(text) => needs_artifact(text.as_str()),
                    None => false,
                };
                if large {
                    self.stage = FinishStage::WritingArtifact;
                    FinishAction::WriteArtifact
                } else {
                    self.stage = FinishStage::Saving;
                    FinishAction::Save
                }
            },
            FinishEvent::ArtifactWritten(Ok(path)) => {
                self.detail_path = Some(path);
                self.stage = FinishStage::Saving;
                FinishAction::Save
            },
            FinishEvent::ArtifactWritten(Err(error)) => {
                self.stage = FinishStage::ArtifactBackOff { error };
                FinishAction::BackOff
            },
            FinishEvent::Saved(Ok(_)) => {
                self.stage = FinishStage::Done;
                FinishAction::Finish
            },
            FinishEvent::Saved(Err(error)) => {
                self.stage = FinishStage::SaveBackOff { error };
                FinishAction::BackOff
            },
            FinishEvent::Gone => {
                self.stage = FinishStage::Done;
                FinishAction::Finish
            },
            FinishEvent::Waited { shutdown } => {
                let mut stage = FinishStage::Done;
                std::mem::swap(&mut stage, &mut self.stage);
                match stage {
                    FinishStage::ArtifactBackOff { error } => if shutdown {
                        FinishAction::Fail(
                            shut_down("artifact", self.task_id.as_str(), error.as_str()),
                        )
                    } else {
                        self.stage = FinishStage::WritingArtifact;
                        FinishAction::WriteArtifact
                    },
                    FinishStage::SaveBackOff { error } => if shutdown {
                        FinishAction::Fail(
                            shut_down("state", self.task_id.as_str(), error.as_str()),
                        )
                    } else {
                        self.stage = FinishStage::Saving;
                        FinishAction::Save
                    },
                    _ => FinishAction::Finish,
                }
            },
        }
    }
}

// Laws -----------------------------------------------------------------------
/// A worker runs a task only in the step after the record that says so was stored; and
/// it does nothing more once the manager has shut down.
pub proof fn executors_start_after_their_record(stage: WorkerStage, event: WorkerEvent)
    requires
        worker_expects(stage, event),
    ensures
        worker_step(stage, event).1 is Execute <==> event == (WorkerEvent::StartStored {
            stored: true,
        }),
        worker_step(stage, event).1 is Exit <==> worker_step(stage, event).0 is Done,
        event == (WorkerEvent::Turn { shutdown: true }) || event == (WorkerEvent::Woken {
            shutdown: true,
        }) ==> worker_step(stage, event).1 is Exit,
{
}

/// One step of a task's end.
pub struct FinishMove {
    pub before: Finishing,
    pub event: FinishEvent,
    pub after: Finishing,
    pub action: FinishAction,
}

impl FinishMove {
    pub open spec fn is_step(self) -> bool {
        &&& self.before.expects(self.event)
        &&& finish_step(self.before, self.event, self.after, self.action)
    }
}

/// The steps of a task's end, from its start.
pub open spec fn is_ending(steps: Seq<FinishMove>) -> bool {
    &&& steps.len() > 0 ==> steps[0].before.stage is New && steps[0].before.detail_path is None
    &&& forall|i: int| 0 <= i < steps.len() ==> (#[trigger] steps[i]).is_step()
    &&& forall|i: int, j: int|
        0 <= i && j == i + 1 && j < steps.len() ==> (#[trigger] steps[j]).before == (
        #[trigger] steps[i]).after
}

/// A task's end is over only when its record has been stored, or when the manager no
/// longer knows the task.
pub proof fn ends_are_stored_first(s: FinishMove)
    requires
        s.is_step(),
        s.action is Finish,
    ensures
        (s.event matches FinishEvent::Saved(stored) && stored is Ok) || s.event is Gone,
{
}

/// The file with a large result is written once: whenever the record is stored, the file
/// is there and is not written again.
pub proof fn results_are_written_once(steps: Seq<FinishMove>, i: int)
    requires
        is_ending(steps),
        0 <= i < steps.len(),
    ensures
        steps[i].after.result == steps[0].before.result,
        steps[i].after.stage is Saving || steps[i].after.stage is SaveBackOff
            ==> steps[i].after.detail_path is Some == is_large(steps[0].before.result),
        steps[i].after.stage is WritingArtifact || steps[i].after.stage is ArtifactBackOff
            ==> steps[i].after.detail_path is None && is_large(steps[0].before.result),
        steps[i].after.stage !is New,
    decreases i,
{
    assert(steps[i].is_step());
    if i > 0 {
        results_are_written_once(steps, i - 1);
        assert(steps[i].before == steps[i - 1].after);
    }
}

} // verus!
