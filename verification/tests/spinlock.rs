use std::cell::Cell;
use std::sync::atomic::{AtomicUsize, Ordering};
use std::sync::Arc;

use sync_primitives::journal::Journal;
use sync_primitives::spinlock::{Guard, SpinLock};

const ROUNDS: u64 = 100;

fn lock_of<T>(lock: &SpinLock<(), T>) -> Guard<'_, (), T> {
    lock.lock(ROUNDS, &mut Journal::new(())).unwrap()
}

fn optimistic_lock_of<T>(lock: &SpinLock<(), T>) -> Guard<'_, (), T> {
    lock.optimistic_lock(ROUNDS, &mut Journal::new(())).unwrap()
}

fn is_locked<T>(lock: &SpinLock<(), T>) -> bool {
    lock.is_locked(&mut Journal::new(()))
}

#[test]
fn changes_of_each_holder_are_kept() {
    let lock = SpinLock::new(Vec::new());
    lock_of(&lock).deref_mut().push(3);
    lock_of(&lock).deref_mut().push(1);
    optimistic_lock_of(&lock).deref_mut().push(2);

    let mut guard = lock_of(&lock);
    guard.deref_mut().sort();
    assert_eq!(guard.deref().as_slice(), &[1, 2, 3]);
}

#[test]
fn one_holder_makes_several_changes() {
    let lock = SpinLock::new(vec![1]);
    {
        let mut guard = lock_of(&lock);
        guard.deref_mut().push(2);
        guard.deref_mut().push(3);
    }
    let guard = lock_of(&lock);
    assert_eq!(guard.deref().as_slice(), &[1, 2, 3]);
}

#[test]
fn new_lock_is_free_and_holds_its_data() {
    let lock = SpinLock::new(41);
    assert!(!is_locked(&lock));
    assert_eq!(*lock_of(&lock).deref(), 41);
}

#[test]
fn lock_from_data() {
    let lock = SpinLock::from(String::from("data"));
    assert!(!is_locked(&lock));
    assert_eq!(lock_of(&lock).deref().as_str(), "data");
}

#[test]
fn held_lock_is_not_acquired_again() {
    let lock = SpinLock::new(0);
    let guard = lock_of(&lock);
    assert!(is_locked(&lock));
    assert!(lock.lock(1000, &mut Journal::new(())).is_none());
    assert!(lock.optimistic_lock(1000, &mut Journal::new(())).is_none());
    assert!(is_locked(&lock));
    drop(guard);
    assert!(!is_locked(&lock));
    assert!(lock.lock(ROUNDS, &mut Journal::new(())).is_some());
}

#[test]
fn failed_attempts_change_nothing() {
    let lock = SpinLock::new(5);
    let mut guard = optimistic_lock_of(&lock);
    assert!(lock.lock(1, &mut Journal::new(())).is_none());
    *guard.deref_mut() = 6;
    assert!(lock.optimistic_lock(1, &mut Journal::new(())).is_none());
    guard.unlock(&mut Journal::new(()));
    assert_eq!(*lock_of(&lock).deref(), 6);
}

#[test]
fn no_rounds_acquire_nothing() {
    let lock = SpinLock::new(0);
    assert!(lock.lock(0, &mut Journal::new(())).is_none());
    assert!(lock.optimistic_lock(0, &mut Journal::new(())).is_none());
    assert!(!is_locked(&lock));
}

#[test]
fn unlock_releases_at_once() {
    let lock = SpinLock::new(0);
    let guard = lock_of(&lock);
    guard.unlock(&mut Journal::new(()));
    assert!(!is_locked(&lock));
    assert_eq!(*lock_of(&lock).deref(), 0);
}

#[test]
fn dropping_the_guard_releases() {
    let lock = SpinLock::new(0);
    {
        let _guard = optimistic_lock_of(&lock);
        assert!(is_locked(&lock));
    }
    assert!(!is_locked(&lock));
}

#[test]
fn locks_are_independent() {
    let mut journal = Journal::new(());
    let one = SpinLock::new(1);
    let two = SpinLock::new(2);
    let guard = one.lock(ROUNDS, &mut journal).unwrap();
    assert!(!two.is_locked(&mut journal));
    *two.optimistic_lock(ROUNDS, &mut journal).unwrap().deref_mut() = 3;
    assert_eq!(*guard.deref(), 1);
    guard.unlock(&mut journal);
    assert_eq!(*two.lock(ROUNDS, &mut journal).unwrap().deref(), 3);
}

#[test]
fn data_are_dropped_once() {
    struct DropCounter(Arc<AtomicUsize>);

    impl Drop for DropCounter {
        fn drop(&mut self) {
            self.0.fetch_add(1, Ordering::Relaxed);
        }
    }

    let drops = Arc::new(AtomicUsize::new(0));
    let lock = SpinLock::new(DropCounter(drops.clone()));
    drop(lock.lock(ROUNDS, &mut Journal::new(())));
    lock_of(&lock).unlock(&mut Journal::new(()));
    assert_eq!(drops.load(Ordering::Relaxed), 0);
    drop(lock);
    assert_eq!(drops.load(Ordering::Relaxed), 1);
}

fn is_send_and_sync<T: Send + Sync>(_: &T) {}

fn is_send<T: Send>(_: &T) {}

#[test]
fn lock_can_be_shared_if_its_data_can_be_sent() {
    let lock = SpinLock::new(Cell::new(1));
    is_send_and_sync(&lock);
    let guard = lock_of(&lock);
    is_send(&guard);
    assert_eq!(guard.deref().get(), 1);
}
