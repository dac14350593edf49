use ray_rust::id::WorkerId;
use ray_rust::worker::{WorkerHandle, WorkerPool};

#[test]
fn test_worker_pool_spawn_and_return() {
    let mut pool = WorkerPool::new(2);
    let w1 = pool.get_worker(1).unwrap();
    assert!(pool.is_busy(&w1));
    assert_eq!(pool.total_count(), 1);
    let w2 = pool.get_worker(1).unwrap();
    assert!(pool.is_busy(&w2));
    assert_eq!(pool.total_count(), 2);
    assert!(pool.get_worker(1).is_none());
    pool.return_worker(&w1);
    assert!(pool.is_idle(&w1));
    let w3 = pool.get_worker(1).unwrap();
    assert_eq!(w3, w1);
}

#[test]
fn test_worker_pool_kill() {
    let mut pool = WorkerPool::new(2);
    let w = pool.get_worker(7).unwrap();
    let wid = w.clone();
    assert_eq!(pool.total_count(), 1);
    pool.kill_worker(&wid);
    assert_eq!(pool.total_count(), 0);
    assert!(pool.is_dead(&w));
}

#[test]
fn test_worker_handle_status() {
    let mut h = WorkerHandle::new_in_process(1234);
    assert!(h.is_idle());
    h.mark_busy();
    assert!(h.is_busy());
    assert!(!h.is_idle());
    h.mark_dead();
    assert!(h.is_dead());
    assert!(!h.is_busy());
    h.mark_idle();
    assert!(h.is_idle());
}

#[test]
fn pool_counts_and_status_through_the_pool() {
    let mut pool = WorkerPool::new(3);
    let a = pool.get_worker(42).unwrap();
    let b = pool.get_worker(42).unwrap();
    assert_eq!(pool.busy_count(), 2);
    assert_eq!(pool.idle_count(), 0);
    pool.return_worker(&a);
    assert_eq!(pool.busy_count(), 1);
    assert_eq!(pool.idle_count(), 1);
    // A status change made through one holder is what every holder reads.
    pool.mark_dead(&b);
    assert!(pool.is_dead(&b) && !pool.is_busy(&b));
    assert_eq!(pool.total_count(), 2);
    // Returning a dead worker removes the dead workers from the pool.
    pool.return_worker(&b);
    assert_eq!(pool.total_count(), 1);
    assert!(pool.is_dead(&b));
    // A retired worker marked idle reads idle, but stays out of the pool.
    pool.mark_idle(&b);
    assert!(pool.is_idle(&b));
    assert_eq!(pool.total_count(), 1);
    // Unknown workers read no status, and returning or killing them changes nothing.
    let stranger = WorkerId::new();
    assert!(!pool.is_idle(&stranger) && !pool.is_busy(&stranger) && !pool.is_dead(&stranger));
    pool.return_worker(&stranger);
    pool.kill_worker(&stranger);
    assert_eq!(pool.total_count(), 1);
    assert!(pool.is_idle(&a));
}

#[test]
fn zero_capacity_pool_never_spawns() {
    let mut pool = WorkerPool::new(0);
    assert!(pool.get_worker(1).is_none());
    assert_eq!(pool.total_count(), 0);
}
