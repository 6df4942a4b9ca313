use resilient_pool::queue::{next_job, JobQueue};

#[test]
fn submitted_jobs_reach_a_worker_in_order() {
    let queue: JobQueue<i32> = JobQueue::new();
    let rx = queue.subscribe();
    assert_eq!(queue.submit(1), Ok(()));
    assert_eq!(queue.submit(2), Ok(()));
    assert_eq!(queue.submit(101), Ok(()));
    assert_eq!(next_job(&rx), Some(1));
    assert_eq!(next_job(&rx), Some(2));
    assert_eq!(next_job(&rx), Some(101));
}

#[test]
fn each_job_goes_to_one_worker() {
    let queue: JobQueue<u64> = JobQueue::new();
    let a = queue.subscribe();
    let b = queue.subscribe();
    queue.submit(10).unwrap();
    queue.submit(20).unwrap();
    assert_eq!(next_job(&a), Some(10));
    assert_eq!(next_job(&b), Some(20));
}

#[test]
fn queue_without_workers_accepts_jobs() {
    let queue: JobQueue<u64> = JobQueue::new();
    assert_eq!(queue.submit(3), Ok(()));
}

#[test]
fn closed_queue_ends_worker_loop() {
    let queue: JobQueue<u64> = JobQueue::new();
    let rx = queue.subscribe();
    queue.submit(4).unwrap();
    drop(queue);
    assert_eq!(next_job(&rx), Some(4));
    assert_eq!(next_job(&rx), None);
}
