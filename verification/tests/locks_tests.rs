use sylphie::locks::{Acquired, LockSet, Released};

#[test]
fn free_lock_is_granted_at_once() {
    let mut locks = LockSet::new();
    assert!(!locks.is_locked(b"k"));
    assert_eq!(locks.acquire(b"k"), Some(Acquired::Granted { ticket: 0 }));
    assert!(locks.is_locked(b"k"));
    assert_eq!(locks.release(b"k", 0), Released::Freed);
    assert!(!locks.is_locked(b"k"));
}

#[test]
fn waiters_get_the_lock_in_the_order_of_asking() {
    let mut locks = LockSet::new();
    assert_eq!(locks.acquire(b"k"), Some(Acquired::Granted { ticket: 0 }));
    assert_eq!(locks.acquire(b"k"), Some(Acquired::Queued { ticket: 1 }));
    assert_eq!(locks.acquire(b"k"), Some(Acquired::Queued { ticket: 2 }));
    assert_eq!(locks.release(b"k", 0), Released::Handed { next: 1 });
    assert_eq!(locks.release(b"k", 1), Released::Handed { next: 2 });
    assert_eq!(locks.release(b"k", 2), Released::Freed);
}

#[test]
fn keys_do_not_wait_for_each_other() {
    let mut locks = LockSet::new();
    assert_eq!(locks.acquire(b"a"), Some(Acquired::Granted { ticket: 0 }));
    assert_eq!(locks.acquire(b"b"), Some(Acquired::Granted { ticket: 1 }));
    assert_eq!(locks.acquire(b"a"), Some(Acquired::Queued { ticket: 2 }));
    assert_eq!(locks.release(b"b", 1), Released::Freed);
    assert!(locks.is_locked(b"a"));
}

#[test]
fn a_waiter_that_gives_up_leaves_the_queue() {
    let mut locks = LockSet::new();
    locks.acquire(b"k");
    locks.acquire(b"k");
    locks.acquire(b"k");
    assert_eq!(locks.release(b"k", 1), Released::Withdrawn);
    assert_eq!(locks.release(b"k", 0), Released::Handed { next: 2 });
}

#[test]
fn an_unknown_ticket_changes_nothing() {
    let mut locks = LockSet::new();
    locks.acquire(b"k");
    assert_eq!(locks.release(b"k", 7), Released::Unknown);
    assert_eq!(locks.release(b"other", 0), Released::Unknown);
    assert!(locks.is_locked(b"k"));
}
