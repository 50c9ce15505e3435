//! The lock compatibility matrix and the FIFO waiter queue.
use swift_db::lock::{Lock, LockState, LockType};

#[test]
fn two_reads_on_a_fresh_lock_both_grant() {
    let mut lock = Lock::new(LockType::Read);
    assert_eq!(lock.state, LockState::ReadRetained(1));
    let granted = lock.queue(7, LockType::Read);
    assert!(granted);
    assert_eq!(lock.state, LockState::ReadRetained(2));
    assert_eq!(lock.waiting.len(), 0);
}

#[test]
fn write_on_a_held_write_queues() {
    let mut lock = Lock::new(LockType::Write);
    assert_eq!(lock.state, LockState::WriteRetained(0));
    let granted = lock.queue(7, LockType::Write);
    assert!(!granted);
    assert_eq!(lock.state, LockState::WriteRetained(0));
    assert_eq!(lock.waiting, vec![(7, LockType::Write)]);
}

#[test]
fn read_under_a_writer_grants() {
    let mut lock = Lock::new(LockType::Write);
    let granted = lock.queue(7, LockType::Read);
    assert!(granted);
    assert_eq!(lock.state, LockState::WriteRetained(1));
}

#[test]
fn releasing_the_last_read_grants_the_queued_write() {
    // A writer holds the lock with one shared grant under it; a
    // second write waits. The writer leaves (the reader remains),
    // then the last reader leaves, which grants the queued write.
    let mut lock = Lock::new(LockType::Write);
    assert!(lock.queue(8, LockType::Read));
    assert_eq!(lock.state, LockState::WriteRetained(1));
    assert!(!lock.queue(9, LockType::Write));

    let granted = lock.release(&LockType::Write);
    assert_eq!(granted, Vec::<u64>::new());
    assert_eq!(lock.state, LockState::ReadRetained(1));

    let granted = lock.release(&LockType::Read);
    assert_eq!(granted, vec![9]);
    assert_eq!(lock.state, LockState::WriteRetained(0));
    assert_eq!(lock.waiting.len(), 0);
}

#[test]
fn blocking_write_always_queues_behind_existing_state() {
    let mut read_lock = Lock::new(LockType::Read);
    assert!(!read_lock.queue(1, LockType::BlockingWrite));
    assert_eq!(read_lock.waiting, vec![(1, LockType::BlockingWrite)]);

    let mut write_lock = Lock::new(LockType::Write);
    assert!(!write_lock.queue(2, LockType::BlockingWrite));

    let mut blocked_lock = Lock::new(LockType::BlockingWrite);
    assert_eq!(blocked_lock.state, LockState::Blocked);
    assert!(!blocked_lock.queue(3, LockType::BlockingWrite));
    assert!(!blocked_lock.queue(4, LockType::Read));
    assert!(!blocked_lock.queue(5, LockType::Write));
    assert_eq!(
        blocked_lock.waiting,
        vec![(3, LockType::BlockingWrite), (4, LockType::Read), (5, LockType::Write)],
    );
}

#[test]
fn drain_grants_queued_reads_together_in_fifo_order() {
    let mut lock = Lock::new(LockType::BlockingWrite);
    assert!(!lock.queue(11, LockType::Read));
    assert!(!lock.queue(12, LockType::Read));
    assert!(!lock.queue(13, LockType::Write));
    assert!(!lock.queue(14, LockType::Read));
    // Releasing the blocking holder grants the head, then everything
    // compatible behind it: both reads, the write over them, and the
    // read under that writer.
    let granted = lock.release(&LockType::BlockingWrite);
    assert_eq!(granted, vec![11, 12, 13, 14]);
    assert_eq!(lock.state, LockState::WriteRetained(3));
    assert_eq!(lock.waiting.len(), 0);
}

#[test]
fn drain_stops_at_the_first_incompatible_waiter() {
    let mut lock = Lock::new(LockType::BlockingWrite);
    assert!(!lock.queue(21, LockType::Write));
    assert!(!lock.queue(22, LockType::BlockingWrite));
    assert!(!lock.queue(23, LockType::Read));
    let granted = lock.release(&LockType::BlockingWrite);
    // The head write is granted; the blocking write behind it is
    // never immediately compatible, so the queue stops there.
    assert_eq!(granted, vec![21]);
    assert_eq!(lock.state, LockState::WriteRetained(0));
    assert_eq!(lock.waiting, vec![(22, LockType::BlockingWrite), (23, LockType::Read)]);
}

#[test]
fn release_with_empty_queue_leaves_an_idle_lock() {
    let mut lock = Lock::new(LockType::Read);
    let granted = lock.release(&LockType::Read);
    assert_eq!(granted, Vec::<u64>::new());
    assert_eq!(lock.state, LockState::ReadRetained(0));
}

#[test]
fn writer_leaving_hands_the_lock_to_its_readers() {
    let mut lock = Lock::new(LockType::Write);
    assert!(lock.queue(31, LockType::Read));
    assert!(lock.queue(32, LockType::Read));
    assert_eq!(lock.state, LockState::WriteRetained(2));
    let granted = lock.release(&LockType::Write);
    // The two shared holders remain; nothing new is granted.
    assert_eq!(granted, Vec::<u64>::new());
    assert_eq!(lock.state, LockState::ReadRetained(2));
}
