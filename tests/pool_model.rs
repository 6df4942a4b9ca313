use resilient_pool::model::PoolModel;
use resilient_pool::worker::{Barrier, Outcome, WorkerAction};

fn survives_failure(barrier: Barrier, expected_after_failure: WorkerAction) {
    let mut pool = PoolModel::new(barrier, 1);
    pool.submit(1);
    pool.submit(101);
    assert_eq!(pool.dispatch(0), Some(1));
    assert_eq!(pool.finish(0, Outcome::Failed), Some(expected_after_failure));
    assert_eq!(pool.live_workers(), 1);
    assert_eq!(pool.dispatch(0), Some(101));
    assert_eq!(pool.finish(0, Outcome::Completed), Some(WorkerAction::AwaitJob));
    assert_eq!(
        pool.finished().clone(),
        vec![(1, Outcome::Failed), (101, Outcome::Completed)]
    );
    assert!(pool.pending().is_empty());
}

#[test]
fn catch_unwind_pool_survives_failure() {
    survives_failure(Barrier::CatchUnwind, WorkerAction::AwaitJob);
}

#[test]
fn sentinel_pool_survives_failure() {
    survives_failure(Barrier::Sentinel, WorkerAction::Respawn);
}

#[test]
fn capacity_kept_after_more_failures_than_workers() {
    for barrier in [Barrier::CatchUnwind, Barrier::Sentinel] {
        let mut pool = PoolModel::new(barrier, 3);
        for k in 0..10u64 {
            pool.submit(k);
            let w = (k % 3) as usize;
            assert_eq!(pool.dispatch(w), Some(k));
            assert!(pool.finish(w, Outcome::Failed).is_some());
            assert_eq!(pool.live_workers(), 3);
        }
        pool.submit(77);
        assert_eq!(pool.dispatch(2), Some(77));
        pool.finish(2, Outcome::Completed);
        let done: Vec<_> = pool.finished().iter().filter(|e| e.0 == 77).collect();
        assert_eq!(done, vec![&(77, Outcome::Completed)]);
    }
}

#[test]
fn every_successful_job_runs_once() {
    let mut pool = PoolModel::new(Barrier::CatchUnwind, 2);
    for j in 0..5u64 {
        pool.submit(j);
    }
    assert_eq!(pool.dispatch(0), Some(0));
    assert_eq!(pool.dispatch(1), Some(1));
    assert_eq!(pool.dispatch(1), None);
    pool.finish(1, Outcome::Completed);
    assert_eq!(pool.dispatch(1), Some(2));
    pool.finish(0, Outcome::Completed);
    assert_eq!(pool.dispatch(0), Some(3));
    pool.finish(0, Outcome::Completed);
    assert_eq!(pool.dispatch(0), Some(4));
    pool.finish(0, Outcome::Completed);
    pool.finish(1, Outcome::Completed);
    let mut jobs: Vec<u64> = pool.finished().iter().map(|e| e.0).collect();
    assert_eq!(jobs.len(), 5);
    jobs.sort();
    assert_eq!(jobs, vec![0, 1, 2, 3, 4]);
    let completed = pool
        .finished()
        .iter()
        .filter(|e| e.1 == Outcome::Completed)
        .count();
    assert_eq!(completed, 5);
}

#[test]
fn single_worker_runs_in_submission_order() {
    let mut pool = PoolModel::new(Barrier::Sentinel, 1);
    for j in 1..=4u64 {
        pool.submit(j);
    }
    while let Some(_) = pool.dispatch(0) {
        pool.finish(0, Outcome::Completed);
    }
    let order: Vec<u64> = pool.finished().iter().map(|e| e.0).collect();
    assert_eq!(order, vec![1, 2, 3, 4]);
}

#[test]
fn pool_of_size_zero_never_runs() {
    let mut pool = PoolModel::new(Barrier::CatchUnwind, 0);
    pool.submit(5);
    pool.submit(6);
    assert_eq!(pool.live_workers(), 0);
    assert_eq!(pool.dispatch(0), None);
    assert_eq!(pool.finish(0, Outcome::Completed), None);
    assert!(pool.finished().is_empty());
    assert_eq!(pool.pending().clone(), vec![5, 6]);
}

#[test]
fn busy_or_missing_worker_takes_nothing() {
    let mut pool = PoolModel::new(Barrier::CatchUnwind, 1);
    assert_eq!(pool.dispatch(0), None);
    pool.submit(8);
    pool.submit(9);
    assert_eq!(pool.dispatch(3), None);
    assert_eq!(pool.dispatch(0), Some(8));
    assert_eq!(pool.dispatch(0), None);
    assert_eq!(pool.pending().clone(), vec![9]);
}
