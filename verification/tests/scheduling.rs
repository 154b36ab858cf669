use priority_threadpool::heap::PriorityThreadPool;
use priority_threadpool::pool::ThreadPool;
use priority_threadpool::pool::WorkerStep;
use priority_threadpool::queue::PriorityQueue;
use priority_threadpool::util::atomic_saturating_sub;
use priority_threadpool::Level;
use priority_threadpool::Priority;

#[test]
fn saturating_sub_at_zero_stays_zero() {
    let mut counter: usize = 0;
    assert_eq!(atomic_saturating_sub(&mut counter, 1), (0, 0));
    assert_eq!(counter, 0);
}

#[test]
fn saturating_sub_above_zero_subtracts() {
    let mut counter: usize = 5;
    assert_eq!(atomic_saturating_sub(&mut counter, 2), (5, 3));
    assert_eq!(counter, 3);
}

#[test]
fn level_indices_are_dense() {
    assert_eq!(<Level as Priority>::COUNT, 3);
    assert_eq!(Level::Low.index(), 0);
    assert_eq!(Level::Medium.index(), 1);
    assert_eq!(Level::High.index(), 2);
}

#[test]
fn priority_precedence_high_before_low() {
    let mut q: PriorityQueue<Level, u8> = PriorityQueue::new();
    q.push(&Level::Low, 10);
    q.push(&Level::High, 20);
    assert_eq!(q.pop(0), Some(20));
    assert_eq!(q.pop(0), Some(10));
}

#[test]
fn priority_precedence_ignores_submission_order() {
    let mut q: PriorityQueue<Level, u8> = PriorityQueue::new();
    q.push(&Level::High, 20);
    q.push(&Level::Low, 10);
    q.push(&Level::Medium, 15);
    assert_eq!(q.pop(0), Some(20));
    assert_eq!(q.pop(0), Some(15));
    assert_eq!(q.pop(0), Some(10));
}

#[test]
fn queue_lifo_within_one_level() {
    let mut q: PriorityQueue<Level, u8> = PriorityQueue::new();
    q.push(&Level::Medium, 1);
    q.push(&Level::Medium, 2);
    assert_eq!(q.pop(0), Some(2));
    assert_eq!(q.pop(0), Some(1));
}

#[test]
fn empty_queue_pops_nothing() {
    let mut q: PriorityQueue<Level, u8> = PriorityQueue::new();
    assert_eq!(q.pop(0), None);
}

#[test]
fn startup_barrier_waits_for_every_worker() {
    let mut pool: ThreadPool<Level, u8> = ThreadPool::new(3);
    assert!(!pool.all_ready());
    pool.worker_start(0);
    pool.worker_start(1);
    assert!(!pool.all_ready());
    pool.worker_start(2);
    assert!(pool.all_ready());
    assert!(pool.is_parked(0) && pool.is_parked(1) && pool.is_parked(2));
    assert_eq!(pool.pending_count(), 0);
}

#[test]
fn empty_pool_is_ready_at_once() {
    let pool: ThreadPool<Level, u8> = ThreadPool::new(0);
    assert!(pool.all_ready());
}

#[test]
fn signal_stop_raises_the_stop_flag() {
    // The worker loop exits only when the flag reads true, so a shutdown
    // request must raise it; anything else would leave the request a no-op.
    let mut pool: ThreadPool<Level, u8> = ThreadPool::new(1);
    assert!(!pool.stop_requested());
    pool.signal_stop();
    assert!(pool.stop_requested());
}

#[test]
fn wake_names_exactly_the_parked_workers() {
    let mut pool: ThreadPool<Level, u8> = ThreadPool::new(3);
    pool.worker_start(0);
    pool.worker_start(2);
    assert_eq!(pool.wake(), vec![0, 2]);
}

#[test]
fn stopped_worker_exits() {
    let mut pool: ThreadPool<Level, u8> = ThreadPool::new(1);
    pool.worker_start(0);
    pool.signal_stop();
    assert!(matches!(pool.worker_step(0), WorkerStep::Exit));
}

#[test]
fn idle_worker_parks() {
    let mut pool: ThreadPool<Level, u8> = ThreadPool::new(1);
    pool.worker_start(0);
    assert!(matches!(pool.worker_step(0), WorkerStep::Park));
    assert_eq!(pool.pending_count(), 0);
}

#[test]
fn worker_runs_the_submitted_job() {
    let mut pool: ThreadPool<Level, u8> = ThreadPool::new(1);
    pool.worker_start(0);
    pool.queue(&Level::Medium, 42);
    assert_eq!(pool.pending_count(), 1);
    match pool.worker_step(0) {
        WorkerStep::Run(job) => {
            assert_eq!(job, 42);
            assert!(!pool.is_parked(0));
            pool.finish_job(0);
            assert!(pool.is_parked(0));
        },
        _ => panic!("expected a job to run"),
    }
    assert_eq!(pool.pending_count(), 0);
}

#[test]
fn end_to_end_hundred_jobs_drain_by_priority() {
    let levels = [Level::Low, Level::Medium, Level::High];
    let mut pool: ThreadPool<Level, u8> = ThreadPool::new(4);
    for ix in 0..4 {
        pool.worker_start(ix);
    }
    assert!(pool.all_ready());
    for n in 0..100 {
        let level = levels[n % 3];
        pool.queue(&level, level.index() as u8);
    }
    let woken = pool.wake();
    assert_eq!(woken, vec![0, 1, 2, 3]);
    let mut log: Vec<u8> = Vec::new();
    let mut ix = 0;
    loop {
        match pool.worker_step(ix) {
            WorkerStep::Run(tag) => {
                log.push(tag);
                pool.finish_job(ix);
            },
            WorkerStep::Park => break,
            WorkerStep::Idle => {},
            WorkerStep::Exit => panic!("no stop was requested"),
        }
        ix = (ix + 1) % 4;
    }
    assert_eq!(log.len(), 100);
    // All jobs were pending before draining began, so strict priority fully
    // orders the log: every High runs before any Medium, every Medium before
    // any Low.
    let highs = 33;
    let mediums = 33;
    for (n, tag) in log.iter().enumerate() {
        let expected = if n < highs {
            2
        } else if n < highs + mediums {
            1
        } else {
            0
        };
        assert_eq!(*tag, expected);
    }
    pool.signal_stop();
    assert!(matches!(pool.worker_step(0), WorkerStep::Exit));
}

#[test]
fn alternate_pool_constructs_empty() {
    let pool: PriorityThreadPool<u8, u8> = PriorityThreadPool::new(4);
    assert_eq!(pool.workers(), 4);
    assert_eq!(pool.pending_len(), 0);
}
