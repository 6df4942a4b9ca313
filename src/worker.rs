//! What a worker thread does next, for both fault-containment strategies.
use vstd::prelude::*;

verus! {

/// How a pool keeps its capacity when a job terminates abnormally.
#[derive(Clone, Copy, Debug, PartialEq, Eq, Structural)]
pub enum Barrier {
    /// Each job runs inside its own interception boundary; the worker
    /// thread absorbs the failure and carries on.
    CatchUnwind,
    /// The failure ends the worker thread; a guard tied to the thread starts
    /// a replacement bound to the same queue before the thread is gone.
    Sentinel,
}

/// How one execution of a job ended.
#[derive(Clone, Copy, Debug, PartialEq, Eq, Structural)]
pub enum Outcome {
    Completed,
    Failed,
}

/// What a worker thread observes.
#[derive(Clone, Copy, Debug, PartialEq, Eq, Structural)]
pub enum WorkerEvent {
    /// The queue handed this worker a job.
    Received,
    /// The queue is empty and no sender remains.
    Disconnected,
    /// The job this worker was running has ended.
    JobEnded(Outcome),
}

/// What a worker thread does in reply to an event.
#[derive(Clone, Copy, Debug, PartialEq, Eq, Structural)]
pub enum WorkerAction {
    /// Run the job just received.
    RunJob,
    /// Block on the queue for the next job.
    AwaitJob,
    /// Start a replacement worker on the same queue; this thread then ends.
    Respawn,
    /// Leave the loop: the thread ends and nothing replaces it.
    Exit,
}

/// The worker loop: receive, run, and contain a failure as `barrier` says.
pub open spec fn next_action(barrier: Barrier, event: WorkerEvent) -> WorkerAction {
    match event {
        WorkerEvent::Received => WorkerAction::RunJob,
        WorkerEvent::Disconnected => WorkerAction::Exit,
        WorkerEvent::JobEnded(Outcome::Completed) => WorkerAction::AwaitJob,
        WorkerEvent::JobEnded(Outcome::Failed) => match barrier {
            Barrier::CatchUnwind => WorkerAction::AwaitJob,
            Barrier::Sentinel => WorkerAction::Respawn,
        },
    }
}

/// Whether a worker performing `action` is still (or again) a live worker
/// of the pool afterwards: either the same thread, or its replacement.
pub open spec fn keeps_capacity(action: WorkerAction) -> bool {
    action != WorkerAction::Exit
}

/// Decides what a worker does after `event`.
pub fn step(barrier: Barrier, event: WorkerEvent) -> (r: WorkerAction)
    ensures
        r == next_action(barrier, event),
{
    match event {
        WorkerEvent::Received => WorkerAction::RunJob,
        WorkerEvent::Disconnected => WorkerAction::Exit,
        WorkerEvent::JobEnded(outcome) => match outcome {
            Outcome::Completed => WorkerAction::AwaitJob,
            Outcome::Failed => match barrier {
                Barrier::CatchUnwind => WorkerAction::AwaitJob,
                Barrier::Sentinel => WorkerAction::Respawn,
            },
        },
    }
}

/// Decides what a worker does once its job has ended, from whether the job
/// ended abnormally.
pub fn after_job(barrier: Barrier, failed: bool) -> (r: WorkerAction)
    ensures
        r == next_action(
            barrier,
            WorkerEvent::JobEnded(if failed { Outcome::Failed } else { Outcome::Completed }),
        ),
        keeps_capacity(r),
        r == WorkerAction::Respawn <==> (failed && barrier == Barrier::Sentinel),
{
    let outcome = if failed { Outcome::Failed } else { Outcome::Completed };
    step(barrier, WorkerEvent::JobEnded(outcome))
}

/// A job's end never costs the pool a worker, whatever the strategy and
/// however the job ended: only the closing of the queue ends a worker for good.
pub proof fn lemma_job_end_keeps_worker(barrier: Barrier, event: WorkerEvent)
    ensures
        !keeps_capacity(next_action(barrier, event)) <==> event == WorkerEvent::Disconnected,
{
}

} // verus!
