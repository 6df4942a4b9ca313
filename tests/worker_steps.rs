use resilient_pool::worker::{after_job, step, Barrier, Outcome, WorkerAction, WorkerEvent};

#[test]
fn received_job_is_run() {
    assert_eq!(step(Barrier::CatchUnwind, WorkerEvent::Received), WorkerAction::RunJob);
    assert_eq!(step(Barrier::Sentinel, WorkerEvent::Received), WorkerAction::RunJob);
}

#[test]
fn closed_queue_ends_worker() {
    assert_eq!(step(Barrier::CatchUnwind, WorkerEvent::Disconnected), WorkerAction::Exit);
    assert_eq!(step(Barrier::Sentinel, WorkerEvent::Disconnected), WorkerAction::Exit);
}

#[test]
fn completed_job_returns_to_queue() {
    for barrier in [Barrier::CatchUnwind, Barrier::Sentinel] {
        assert_eq!(
            step(barrier, WorkerEvent::JobEnded(Outcome::Completed)),
            WorkerAction::AwaitJob
        );
        assert_eq!(after_job(barrier, false), WorkerAction::AwaitJob);
    }
}

#[test]
fn catch_unwind_absorbs_failure() {
    assert_eq!(
        step(Barrier::CatchUnwind, WorkerEvent::JobEnded(Outcome::Failed)),
        WorkerAction::AwaitJob
    );
    assert_eq!(after_job(Barrier::CatchUnwind, true), WorkerAction::AwaitJob);
}

#[test]
fn sentinel_replaces_failed_worker() {
    assert_eq!(
        step(Barrier::Sentinel, WorkerEvent::JobEnded(Outcome::Failed)),
        WorkerAction::Respawn
    );
    assert_eq!(after_job(Barrier::Sentinel, true), WorkerAction::Respawn);
}
