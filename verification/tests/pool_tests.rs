use threadpool::pool::RecvStatus;
use threadpool::pool::ThreadPool;

#[test]
fn it_works() {
    // Two submitted tasks each stand for one increment of a shared
    // counter; after both are delivered and performed, the counter is 2.
    let mut pool: ThreadPool<u32> = ThreadPool::new(10);
    let mut n: u32 = 0;

    pool.execute(1);
    pool.execute(1);
    pool.close();
    for delta in pool.drain() {
        n += delta;
    }
    assert_eq!(n, 2);
}

#[test]
fn tasks_delivered_exactly_once() {
    // Every submitted task comes out exactly once, in submission order.
    let mut pool: ThreadPool<u64> = ThreadPool::new(4);
    for id in 0..5u64 {
        pool.execute(id);
    }
    assert_eq!(pool.pending_len(), 5);
    pool.close();
    let delivered = pool.drain();
    assert_eq!(delivered, vec![0, 1, 2, 3, 4]);
    assert_eq!(pool.pending_len(), 0);
    assert!(matches!(pool.recv(), RecvStatus::Disconnected));
}

#[test]
fn recv_in_submission_order() {
    let mut pool: ThreadPool<u64> = ThreadPool::new(2);
    pool.execute(7);
    pool.execute(8);
    match pool.recv() {
        RecvStatus::Received(t) => assert_eq!(t, 7),
        _ => panic!("expected a task"),
    }
    match pool.recv() {
        RecvStatus::Received(t) => assert_eq!(t, 8),
        _ => panic!("expected a task"),
    }
    assert!(matches!(pool.recv(), RecvStatus::Empty));
}

#[test]
fn submit_after_close_fails() {
    // Submission after shutdown is a hard error carrying the task back,
    // never a silent drop.
    let mut pool: ThreadPool<u64> = ThreadPool::new(3);
    pool.execute(1);
    pool.close();
    assert!(!pool.is_open());
    let refused = pool.try_execute(2);
    assert_eq!(refused, Err(2));
    assert_eq!(pool.pending_len(), 1);
    let delivered = pool.drain();
    assert_eq!(delivered, vec![1]);
}

#[test]
fn empty_open_pool_reports_empty() {
    let mut pool: ThreadPool<u64> = ThreadPool::new(1);
    assert!(matches!(pool.recv(), RecvStatus::Empty));
    assert!(pool.is_open());
}

#[test]
fn worker_count_is_fixed() {
    let mut pool: ThreadPool<u64> = ThreadPool::new(6);
    assert_eq!(pool.num_workers(), 6);
    pool.execute(1);
    pool.recv();
    pool.close();
    assert_eq!(pool.num_workers(), 6);
}
