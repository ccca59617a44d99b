use invoker::pool::SlotPool;

#[test]
fn put_after_take_keeps_contents() {
    let mut pool = SlotPool::new(3);
    let taken = pool.try_take().expect("a fresh pool has free slots");
    assert_eq!(taken, 0);
    pool.put(taken);
    let mut seen = vec![];
    while let Some(id) = pool.try_take() {
        seen.push(id);
    }
    seen.sort();
    assert_eq!(seen, vec![0, 1, 2]);
}

#[test]
fn pool_is_fifo() {
    let mut pool = SlotPool::new(2);
    assert_eq!(pool.try_take(), Some(0));
    assert_eq!(pool.try_take(), Some(1));
    assert_eq!(pool.try_take(), None);
    pool.put(1);
    pool.put(0);
    assert_eq!(pool.try_take(), Some(1));
    assert_eq!(pool.try_take(), Some(0));
}

#[test]
fn slots_survive_failing_leases() {
    let n: usize = 4;
    let mut pool = SlotPool::new(n);
    for _round in 0..16 {
        let mut leased = vec![];
        for _ in 0..n {
            leased.push(pool.try_take().expect("every slot comes back"));
        }
        assert_eq!(pool.try_take(), None);
        for id in leased {
            pool.put(id);
        }
    }
    assert_eq!(pool.len(), n);
}

#[test]
fn gate_turns_second_judgment_away() {
    let mut gate = invoker::gate::JudgeGate::new();
    assert!(gate.try_acquire());
    assert!(!gate.try_acquire());
    gate.release();
    assert!(gate.try_acquire());
    gate.cancel();
    assert!(gate.try_acquire());
}
