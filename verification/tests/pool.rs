use serve_pool::pool_model::WorkerState;
use serve_pool::thread_pool::{Claim, ThreadPool, Worker};

fn take(pool: &mut ThreadPool<u32>, worker: usize) -> u32 {
    match pool.claim(worker) {
        Claim::Job(job) => job,
        Claim::Wait => panic!("worker {} was told to wait", worker),
        Claim::Shutdown => panic!("worker {} was told to leave", worker),
    }
}

#[test]
fn new_pool_is_idle_open_and_empty() {
    let pool: ThreadPool<u32> = ThreadPool::new(4);
    assert_eq!(pool.size(), 4);
    assert_eq!(pool.queued(), 0);
    assert_eq!(pool.joined(), 0);
    assert!(pool.is_open());
    for worker in 0..4 {
        assert_eq!(pool.state(worker), WorkerState::Idle);
    }
}

#[test]
fn pool_of_one_worker_is_allowed() {
    let pool: ThreadPool<u32> = ThreadPool::new(1);
    assert_eq!(pool.size(), 1);
    assert_eq!(pool.state(0), WorkerState::Idle);
}

#[test]
fn new_worker_is_idle_and_keeps_its_id() {
    let first = Worker::new(0);
    assert_eq!(first.id, 0);
    assert_eq!(first.state, WorkerState::Idle);
    let last = Worker::new(usize::MAX);
    assert_eq!(last.id, usize::MAX);
    assert_eq!(last.state, WorkerState::Idle);
}

#[test]
fn alive_states_are_idle_and_busy() {
    assert!(WorkerState::Idle.is_alive());
    assert!(WorkerState::Busy.is_alive());
    assert!(!WorkerState::Exited.is_alive());
    assert!(!WorkerState::Panicked.is_alive());
}

#[test]
fn execute_queues_without_touching_workers() {
    let mut pool: ThreadPool<u32> = ThreadPool::new(2);
    pool.execute(7);
    pool.execute(8);
    pool.execute(9);
    assert_eq!(pool.queued(), 3);
    assert_eq!(pool.state(0), WorkerState::Idle);
    assert_eq!(pool.state(1), WorkerState::Idle);
    assert!(pool.is_open());
}

#[test]
fn jobs_are_claimed_in_submission_order() {
    let mut pool: ThreadPool<u32> = ThreadPool::new(3);
    for job in [10, 20, 30, 40, 50] {
        pool.execute(job);
    }
    assert_eq!(take(&mut pool, 2), 10);
    assert_eq!(take(&mut pool, 0), 20);
    assert_eq!(take(&mut pool, 1), 30);
    assert_eq!(pool.queued(), 2);
    pool.complete(1);
    assert_eq!(take(&mut pool, 1), 40);
    pool.complete(2);
    assert_eq!(take(&mut pool, 2), 50);
    assert_eq!(pool.queued(), 0);
}

#[test]
fn claim_marks_the_worker_busy_and_complete_frees_it() {
    let mut pool: ThreadPool<u32> = ThreadPool::new(2);
    pool.execute(1);
    assert_eq!(take(&mut pool, 1), 1);
    assert_eq!(pool.state(1), WorkerState::Busy);
    assert_eq!(pool.state(0), WorkerState::Idle);
    pool.complete(1);
    assert_eq!(pool.state(1), WorkerState::Idle);
}

#[test]
fn claim_on_an_empty_open_queue_waits() {
    let mut pool: ThreadPool<u32> = ThreadPool::new(2);
    assert!(matches!(pool.claim(0), Claim::Wait));
    assert_eq!(pool.state(0), WorkerState::Idle);
    assert_eq!(pool.queued(), 0);
    assert!(pool.is_open());
    pool.execute(5);
    assert_eq!(take(&mut pool, 0), 5);
}

#[test]
fn claim_on_an_empty_closed_queue_leaves() {
    let mut pool: ThreadPool<u32> = ThreadPool::new(2);
    assert!(!pool.shutdown());
    assert!(!pool.is_open());
    assert!(matches!(pool.claim(1), Claim::Shutdown));
    assert_eq!(pool.state(1), WorkerState::Exited);
    assert_eq!(pool.state(0), WorkerState::Idle);
}

#[test]
fn every_job_runs_exactly_once() {
    let workers: usize = 3;
    let mut pool: ThreadPool<u32> = ThreadPool::new(workers);
    let jobs: Vec<u32> = (0..10).collect();
    for job in &jobs {
        pool.execute(*job);
    }
    let mut ran: Vec<u32> = Vec::new();
    let mut left = workers;
    let mut closed = false;
    while left > 0 {
        for worker in 0..workers {
            if pool.state(worker) != WorkerState::Idle {
                continue;
            }
            match pool.claim(worker) {
                Claim::Job(job) => {
                    ran.push(job);
                    pool.complete(worker);
                }
                Claim::Wait => {
                    if !closed {
                        pool.shutdown();
                        closed = true;
                    }
                }
                Claim::Shutdown => left -= 1,
            }
        }
    }
    assert_eq!(ran, jobs);
    assert_eq!(pool.queued(), 0);
    assert!(pool.shutdown());
    assert_eq!(pool.joined(), workers);
    for worker in 0..workers {
        assert_eq!(pool.state(worker), WorkerState::Exited);
    }
}

#[test]
fn pool_without_jobs_shuts_down() {
    let mut pool: ThreadPool<u32> = ThreadPool::new(2);
    assert!(!pool.shutdown());
    assert!(matches!(pool.claim(0), Claim::Shutdown));
    assert!(matches!(pool.claim(1), Claim::Shutdown));
    assert!(pool.shutdown());
    assert_eq!(pool.joined(), 2);
}

#[test]
fn closed_queue_is_drained_before_workers_leave() {
    let mut pool: ThreadPool<u32> = ThreadPool::new(1);
    pool.execute(1);
    pool.execute(2);
    assert!(!pool.shutdown());
    assert_eq!(pool.queued(), 2);
    assert_eq!(take(&mut pool, 0), 1);
    pool.complete(0);
    assert_eq!(take(&mut pool, 0), 2);
    pool.complete(0);
    assert!(matches!(pool.claim(0), Claim::Shutdown));
    assert!(pool.shutdown());
}

#[test]
fn shutdown_waits_for_a_running_worker() {
    let mut pool: ThreadPool<u32> = ThreadPool::new(2);
    pool.execute(1);
    assert_eq!(take(&mut pool, 0), 1);
    assert!(!pool.shutdown());
    assert_eq!(pool.joined(), 0);
    assert!(matches!(pool.claim(1), Claim::Shutdown));
    assert!(!pool.shutdown());
    assert_eq!(pool.joined(), 0);
    pool.complete(0);
    assert!(!pool.shutdown());
    assert!(matches!(pool.claim(0), Claim::Shutdown));
    assert!(pool.shutdown());
    assert_eq!(pool.joined(), 2);
    assert!(!pool.state(0).is_alive());
    assert!(!pool.state(1).is_alive());
}

#[test]
fn shutdown_joins_in_order_up_to_the_first_running_worker() {
    let mut pool: ThreadPool<u32> = ThreadPool::new(3);
    pool.execute(1);
    assert_eq!(take(&mut pool, 1), 1);
    assert!(!pool.shutdown());
    assert!(matches!(pool.claim(0), Claim::Shutdown));
    assert!(matches!(pool.claim(2), Claim::Shutdown));
    assert!(!pool.shutdown());
    assert_eq!(pool.joined(), 1);
    pool.complete(1);
    assert!(matches!(pool.claim(1), Claim::Shutdown));
    assert!(pool.shutdown());
    assert_eq!(pool.joined(), 3);
}

#[test]
fn shutdown_again_after_the_end_changes_nothing() {
    let mut pool: ThreadPool<u32> = ThreadPool::new(1);
    assert!(!pool.shutdown());
    assert!(matches!(pool.claim(0), Claim::Shutdown));
    assert!(pool.shutdown());
    assert!(pool.shutdown());
    assert_eq!(pool.joined(), 1);
    assert!(!pool.is_open());
}

#[test]
fn dead_worker_is_joined_and_the_others_go_on() {
    let mut pool: ThreadPool<u32> = ThreadPool::new(2);
    pool.execute(1);
    pool.execute(2);
    pool.execute(3);
    assert_eq!(take(&mut pool, 0), 1);
    pool.fail(0);
    assert_eq!(pool.state(0), WorkerState::Panicked);
    assert_eq!(pool.queued(), 2);
    assert_eq!(take(&mut pool, 1), 2);
    pool.complete(1);
    assert_eq!(take(&mut pool, 1), 3);
    pool.complete(1);
    assert!(!pool.shutdown());
    assert_eq!(pool.joined(), 1);
    assert!(matches!(pool.claim(1), Claim::Shutdown));
    assert!(pool.shutdown());
    assert_eq!(pool.joined(), 2);
    assert_eq!(pool.state(0), WorkerState::Panicked);
    assert_eq!(pool.state(1), WorkerState::Exited);
}

#[test]
fn one_worker_runs_the_second_job_only_after_the_first() {
    let mut pool: ThreadPool<&str> = ThreadPool::new(1);
    pool.execute("slow");
    pool.execute("quick");
    let mut finished: Vec<&str> = Vec::new();
    let first = match pool.claim(0) {
        Claim::Job(job) => job,
        _ => panic!("no job"),
    };
    assert_eq!(first, "slow");
    assert_eq!(pool.state(0), WorkerState::Busy);
    assert_eq!(pool.queued(), 1);
    finished.push(first);
    pool.complete(0);
    let second = match pool.claim(0) {
        Claim::Job(job) => job,
        _ => panic!("no job"),
    };
    finished.push(second);
    pool.complete(0);
    assert_eq!(finished, vec!["slow", "quick"]);
}

#[test]
fn two_workers_may_finish_the_second_job_first() {
    let mut pool: ThreadPool<&str> = ThreadPool::new(2);
    pool.execute("slow");
    pool.execute("quick");
    let mut finished: Vec<&str> = Vec::new();
    let first = match pool.claim(0) {
        Claim::Job(job) => job,
        _ => panic!("no job"),
    };
    let second = match pool.claim(1) {
        Claim::Job(job) => job,
        _ => panic!("no job"),
    };
    assert_eq!(first, "slow");
    assert_eq!(second, "quick");
    finished.push(second);
    pool.complete(1);
    assert_eq!(pool.state(0), WorkerState::Busy);
    finished.push(first);
    pool.complete(0);
    assert_eq!(finished, vec!["quick", "slow"]);
}
