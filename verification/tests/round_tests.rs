use threadpool::partition::task_range;
use threadpool::pool::ThreadPool;
use threadpool::round::Accumulator;
use threadpool::round::Round;

#[test]
fn indices_are_distinct() {
    let mut round = Round::new(4);
    assert_eq!(round.claim_index(), 0);
    assert_eq!(round.claim_index(), 1);
    assert_eq!(round.claim_index(), 2);
    assert_eq!(round.claim_index(), 3);
}

#[test]
fn round_completes_after_all_tasks() {
    // Exactly four completion increments finish a round of four: the
    // poll reports completion after the fourth and not before.
    let mut round = Round::new(4);
    for _ in 0..4 {
        round.claim_index();
    }
    for done in 1..=4u32 {
        assert!(!round.is_complete());
        round.record_completion();
        assert_eq!(round.completed_count(), done);
    }
    assert!(round.is_complete());
    assert_eq!(round.task_count(), 4);
}

#[test]
fn single_task_round() {
    // One task owning all of [1, 10] computes the whole sine reduction
    // directly; the completion counter reaches 1 and the accumulator
    // holds that sum.
    let mut round = Round::new(1);
    let mut sum: f64 = 0.0;

    let index = round.claim_index();
    assert_eq!(index, 0);
    let (lo, hi) = task_range(index, 1, 10);
    assert_eq!((lo, hi), (1, 10));
    let mut partial: f64 = 0.0;
    for i in lo..=hi {
        partial += (i as f64).sin();
    }
    sum += partial;
    round.record_completion();

    assert!(round.is_complete());
    assert_eq!(round.completed_count(), 1);
    let mut direct: f64 = 0.0;
    for i in 1..=10u64 {
        direct += (i as f64).sin();
    }
    assert!((sum - direct).abs() < 1e-12);
}

#[test]
fn full_round_through_pool() {
    // One whole round, as the caller protocol runs it: four tasks go
    // through the pool, each claims a dispatch index, computes its
    // partial over the range that index owns, adds it to the shared
    // sum, and records completion; the poll then reports the round
    // complete and the sum equals the direct reduction.
    let num_tasks: u32 = 4;
    let work: u64 = 10;
    let mut pool: ThreadPool<u32> = ThreadPool::new(6);
    let mut round = Round::new(num_tasks);
    let mut sum: f64 = 0.0;

    for _ in 0..num_tasks {
        pool.execute(1);
    }
    pool.close();
    for _task in pool.drain() {
        let index = round.claim_index();
        let (lo, hi) = task_range(index, num_tasks, work);
        let mut partial: f64 = 0.0;
        for i in lo..=hi {
            partial += (i as f64).sin();
        }
        sum += partial;
        round.record_completion();
    }

    assert!(round.is_complete());
    let mut direct: f64 = 0.0;
    for i in 1..=work {
        direct += (i as f64).sin();
    }
    assert!((sum - direct).abs() < 1e-9);
}

#[test]
fn accumulator_is_order_free() {
    let mut a = Accumulator::new();
    let mut b = Accumulator::new();
    a.add(6);
    a.add(15);
    a.add(34);
    b.add(34);
    b.add(6);
    b.add(15);
    assert_eq!(a.total(), 55);
    assert_eq!(b.total(), 55);
}

#[test]
fn accumulator_starts_at_identity() {
    let acc = Accumulator::new();
    assert_eq!(acc.total(), 0);
}
