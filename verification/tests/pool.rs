use worker_pool::MAX_THREAD_POOL_SIZE;
use worker_pool::PoolCreationError;
use worker_pool::StepEvent;
use worker_pool::ThreadPool;
use worker_pool::WorkerState;

#[test]
fn builds_every_size_in_range() {
    for size in 1..=MAX_THREAD_POOL_SIZE {
        let pool = ThreadPool::build(size).unwrap();
        assert_eq!(pool.workers.len(), size);
        for w in &pool.workers {
            assert_eq!(*w, WorkerState::Idle);
        }
        assert!(pool.pending.is_empty());
        assert!(pool.completed.is_empty());
        assert!(pool.sender_alive);
        assert_eq!(pool.next_job, 0);
    }
}

#[test]
fn rejects_zero_and_oversize() {
    assert!(ThreadPool::build(0).is_err());
    assert!(ThreadPool::build(11).is_err());
    assert!(ThreadPool::build(100).is_err());
    assert!(ThreadPool::build(usize::MAX).is_err());
}

#[test]
fn boundary_max_and_one_above() {
    let pool = ThreadPool::build(MAX_THREAD_POOL_SIZE).unwrap();
    assert_eq!(pool.workers.len(), 10);
    assert!(ThreadPool::build(MAX_THREAD_POOL_SIZE + 1).is_err());
}

#[test]
fn creation_error_message() {
    let err: PoolCreationError = ThreadPool::build(0).unwrap_err();
    assert_eq!(err.message(), "tried to build a thread pool with invalid size");
}

#[test]
fn submission_assigns_sequential_ids() {
    let mut pool = ThreadPool::build(2).unwrap();
    assert_eq!(pool.execute(), 0);
    assert_eq!(pool.execute(), 1);
    assert_eq!(pool.execute(), 2);
    assert_eq!(pool.pending, vec![0, 1, 2]);
    pool.shutdown();
}

#[test]
fn claim_run_complete_cycle() {
    let mut pool = ThreadPool::build(1).unwrap();
    let job = pool.execute();
    assert_eq!(pool.worker_step(0), StepEvent::Claimed(job));
    assert_eq!(pool.workers[0], WorkerState::Running(job));
    assert!(pool.pending.is_empty());
    pool.finish(0);
    assert_eq!(pool.workers[0], WorkerState::Idle);
    assert_eq!(pool.completed, vec![job]);
    pool.shutdown();
}

#[test]
fn empty_open_queue_blocks_the_worker() {
    let mut pool = ThreadPool::build(1).unwrap();
    assert_eq!(pool.worker_step(0), StepEvent::WouldBlock);
    assert_eq!(pool.workers[0], WorkerState::Idle);
    assert!(pool.sender_alive);
}

#[test]
fn closed_empty_queue_disconnects_the_worker() {
    let mut pool = ThreadPool::build(1).unwrap();
    pool.close();
    assert_eq!(pool.worker_step(0), StepEvent::Disconnected);
    assert_eq!(pool.workers[0], WorkerState::Terminated);
}

#[test]
fn each_job_claimed_by_exactly_one_worker() {
    let mut pool = ThreadPool::build(4).unwrap();
    for _ in 0..4 {
        pool.execute();
    }
    for w in 0..4 {
        match pool.worker_step(w) {
            StepEvent::Claimed(j) => assert_eq!(j, w),
            other => panic!("worker {w} should have claimed a job, got {other:?}"),
        }
    }
    // All four workers hold distinct jobs at once: the model's picture of
    // four jobs running in parallel, one per worker.
    for w in 0..4 {
        assert_eq!(pool.workers[w], WorkerState::Running(w));
    }
    for w in 0..4 {
        pool.finish(w);
    }
    pool.shutdown();
    assert_eq!(pool.completed.len(), 4);
}

#[test]
fn teardown_completes_all_submitted_jobs() {
    let mut pool = ThreadPool::build(3).unwrap();
    let n = 5;
    for _ in 0..n {
        pool.execute();
    }
    pool.shutdown();
    assert!(!pool.sender_alive);
    assert!(pool.pending.is_empty());
    assert_eq!(pool.completed.len(), n);
    let mut seen = pool.completed.clone();
    seen.sort();
    assert_eq!(seen, vec![0, 1, 2, 3, 4]);
    for w in &pool.workers {
        assert_eq!(*w, WorkerState::Terminated);
    }
}

#[test]
fn teardown_with_no_pending_jobs() {
    let mut pool = ThreadPool::build(2).unwrap();
    pool.shutdown();
    for w in &pool.workers {
        assert_eq!(*w, WorkerState::Terminated);
    }
    assert!(pool.completed.is_empty());
    assert!(pool.pending.is_empty());
}

#[test]
fn single_worker_processes_in_submission_order() {
    let mut pool = ThreadPool::build(1).unwrap();
    for _ in 0..3 {
        pool.execute();
    }
    pool.shutdown();
    assert_eq!(pool.completed, vec![0, 1, 2]);
}

#[test]
fn teardown_finishes_in_flight_work_first() {
    let mut pool = ThreadPool::build(2).unwrap();
    pool.execute();
    pool.execute();
    assert_eq!(pool.worker_step(0), StepEvent::Claimed(0));
    pool.shutdown();
    assert_eq!(pool.completed.len(), 2);
    // The in-flight job is drained before its worker exits.
    assert_eq!(pool.completed[0], 0);
    assert_eq!(pool.completed[1], 1);
}
