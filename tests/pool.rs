use std::cell::RefCell;
use std::rc::Rc;
use std::sync::atomic::{AtomicI32, Ordering};
use std::sync::Arc;

use thread_pool::{PoolState, Step, SubmitError, WorkerState};

type Job = Box<dyn FnMut()>;

/// Lets every worker, in turn, take an item and run it, until nothing is pending.
fn drive(pool: &mut PoolState<Job>) {
    while pool.pending_len() > 0 {
        for w in 0..pool.num_workers() {
            if pool.worker_state(w) == WorkerState::Waiting {
                if let Step::Run(mut job) = pool.take(w) {
                    job();
                    pool.finish(w);
                }
            }
        }
    }
}

#[test]
fn mutable_test() {
    let mut pool: PoolState<Job> = PoolState::new(4);
    let n = Arc::new(AtomicI32::new(0));
    let n_clone = n.clone();
    let foo = move || {
        n_clone.fetch_add(15, Ordering::SeqCst);
    };
    assert!(pool.execute(Box::new(foo.clone())).is_ok());
    assert!(pool.execute(Box::new(foo)).is_ok());
    drive(&mut pool);
    assert_eq!(n.load(Ordering::SeqCst), 30);
}

#[test]
fn simple_test() {
    let mut pool: PoolState<Job> = PoolState::new(4);
    let ran = Rc::new(RefCell::new(Vec::new()));
    for _ in 0..2 {
        let ran = ran.clone();
        let job: Job = Box::new(move || {
            println!("Worker 1");
            ran.borrow_mut().push("Worker 1");
        });
        assert!(pool.execute(job).is_ok());
    }
    drive(&mut pool);
    assert_eq!(*ran.borrow(), vec!["Worker 1", "Worker 1"]);
}

#[test]
fn single_worker_runs_in_submission_order() {
    let mut pool: PoolState<Job> = PoolState::new(1);
    let clock = Rc::new(RefCell::new(0u64));
    let stamps = Rc::new(RefCell::new(Vec::new()));
    let (c, s) = (clock.clone(), stamps.clone());
    // A does some work before it records its stamp; B records at once.
    let a: Job = Box::new(move || {
        *c.borrow_mut() += 500;
        s.borrow_mut().push(("A", *c.borrow()));
    });
    let (c, s) = (clock.clone(), stamps.clone());
    let b: Job = Box::new(move || {
        s.borrow_mut().push(("B", *c.borrow()));
    });
    assert!(pool.execute(a).is_ok());
    assert!(pool.execute(b).is_ok());
    drive(&mut pool);
    let st = stamps.borrow();
    assert_eq!(st.len(), 2);
    assert_eq!(st[0].0, "A");
    assert_eq!(st[1].0, "B");
    assert!(st[1].1 >= st[0].1);
}

#[test]
fn thousand_items_on_eight_workers() {
    let mut pool: PoolState<Job> = PoolState::new(8);
    let n = Arc::new(AtomicI32::new(0));
    for _ in 0..1000 {
        let n = n.clone();
        assert!(pool.execute(Box::new(move || {
            n.fetch_add(1, Ordering::SeqCst);
        })).is_ok());
    }
    assert_eq!(pool.pending_len(), 1000);
    drive(&mut pool);
    assert_eq!(n.load(Ordering::SeqCst), 1000);
    assert_eq!(pool.pending_len(), 0);
}

#[test]
fn each_item_handed_out_once_oldest_first() {
    let mut pool: PoolState<u32> = PoolState::new(3);
    for i in 0..10u32 {
        assert!(pool.execute(i).is_ok());
    }
    let mut seen = Vec::new();
    while pool.pending_len() > 0 {
        for w in 0..3 {
            if let Step::Run(x) = pool.take(w) {
                seen.push(x);
                pool.finish(w);
            }
        }
    }
    assert_eq!(seen, (0..10u32).collect::<Vec<u32>>());
}

#[test]
fn every_worker_in_flight_and_no_more() {
    let mut pool: PoolState<u32> = PoolState::new(3);
    for i in 0..4u32 {
        assert!(pool.execute(i).is_ok());
    }
    for w in 0..3 {
        assert!(matches!(pool.take(w), Step::Run(x) if x == w as u32));
    }
    for w in 0..3 {
        assert_eq!(pool.worker_state(w), WorkerState::Executing);
    }
    // No worker is free: the fourth item waits.
    assert!(pool.execute(4).is_ok());
    assert_eq!(pool.pending_len(), 2);
    pool.finish(1);
    assert!(matches!(pool.take(1), Step::Run(3)));
    assert_eq!(pool.pending_len(), 1);
}

#[test]
fn interleaved_submitters_lose_nothing() {
    let mut pool: PoolState<(u32, u32)> = PoolState::new(3);
    let mut seen = Vec::new();
    for m in 0..25u32 {
        for k in 0..4u32 {
            assert!(pool.execute((k, m)).is_ok());
        }
        if let Step::Run(x) = pool.take((m % 3) as usize) {
            seen.push(x);
            pool.finish((m % 3) as usize);
        }
    }
    while pool.pending_len() > 0 {
        if let Step::Run(x) = pool.take(0) {
            seen.push(x);
            pool.finish(0);
        }
    }
    assert_eq!(seen.len(), 100);
    let mut sorted = seen.clone();
    sorted.sort();
    sorted.dedup();
    assert_eq!(sorted.len(), 100);
    for k in 0..4u32 {
        let mine: Vec<u32> = seen.iter().filter(|p| p.0 == k).map(|p| p.1).collect();
        assert_eq!(mine, (0..25u32).collect::<Vec<u32>>());
    }
}

#[test]
fn idle_pool_shuts_down() {
    let mut pool: PoolState<u32> = PoolState::new(4);
    pool.close();
    for w in 0..4 {
        assert!(matches!(pool.take(w), Step::Stop));
        assert_eq!(pool.worker_state(w), WorkerState::Stopped);
    }
    assert_eq!(pool.live_workers(), 0);
}

#[test]
fn closed_pool_drains_before_stopping() {
    let mut pool: PoolState<u32> = PoolState::new(2);
    assert!(pool.execute(1).is_ok());
    assert!(pool.execute(2).is_ok());
    pool.close();
    assert!(pool.is_closed());
    assert!(matches!(pool.take(0), Step::Run(1)));
    assert!(matches!(pool.take(1), Step::Run(2)));
    pool.finish(1);
    assert!(matches!(pool.take(1), Step::Stop));
    assert_eq!(pool.live_workers(), 1);
    pool.finish(0);
    assert!(matches!(pool.take(0), Step::Stop));
    assert_eq!(pool.live_workers(), 0);
}

#[test]
fn free_worker_waits_on_empty_queue() {
    let mut pool: PoolState<u32> = PoolState::new(2);
    assert!(matches!(pool.take(0), Step::Wait));
    assert_eq!(pool.worker_state(0), WorkerState::Waiting);
    assert_eq!(pool.live_workers(), 2);
}

#[test]
fn submit_after_close_is_refused() {
    let mut pool: PoolState<u32> = PoolState::new(2);
    pool.close();
    assert!(matches!(pool.execute(7), Err(SubmitError::Closed(7))));
    assert_eq!(pool.pending_len(), 0);
}

#[test]
fn submit_without_workers_is_refused() {
    let mut pool: PoolState<u32> = PoolState::new(2);
    assert!(pool.execute(1).is_ok());
    assert!(pool.execute(2).is_ok());
    assert!(matches!(pool.take(0), Step::Run(1)));
    assert!(matches!(pool.take(1), Step::Run(2)));
    pool.abandon(0);
    assert_eq!(pool.live_workers(), 1);
    assert!(pool.execute(3).is_ok());
    pool.abandon(1);
    assert_eq!(pool.live_workers(), 0);
    assert!(matches!(pool.execute(4), Err(SubmitError::NoWorkers(4))));
    assert_eq!(pool.pending_len(), 1);
}

#[test]
fn largest_pool() {
    let pool: PoolState<u32> = PoolState::new(255);
    assert_eq!(pool.num_workers(), 255);
    assert_eq!(pool.live_workers(), 255);
    assert!(!pool.is_closed());
}
