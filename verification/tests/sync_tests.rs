use chim_compiler::sync::{Barrier, Event, Once, OnceCell, Semaphore, SyncError};
use std::time::Duration;

#[test]
fn test_semaphore() {
    let mut sem = Semaphore::new(2);
    assert_eq!(sem.available_permits(), 2);
    sem.acquire().unwrap();
    assert_eq!(sem.available_permits(), 1);
    sem.release();
    assert_eq!(sem.available_permits(), 2);
}

#[test]
fn test_once_cell() {
    let mut cell = OnceCell::new();
    assert!(cell.get().is_none());
    cell.set(42).unwrap();
    assert_eq!(*cell.get().unwrap(), 42);
}

#[test]
fn test_once() {
    let mut once = Once::new();
    let mut counter = 0;
    once.call_once(|| counter += 1);
    once.call_once(|| counter += 1);
    assert_eq!(counter, 1);
    assert!(once.is_completed());
}

#[test]
fn test_event() {
    let mut event = Event::new();
    assert!(!event.is_set());
    event.set();
    assert!(event.is_set());
    event.wait();
    event.reset();
    assert!(!event.is_set());
}

#[test]
fn try_acquire_fails_without_permits() {
    let mut sem = Semaphore::new(1);
    assert_eq!(sem.try_acquire(), Ok(()));
    assert_eq!(sem.try_acquire(), Err(SyncError::Timeout));
    assert_eq!(sem.acquire_timeout(Duration::from_millis(1)), Err(SyncError::Timeout));
    sem.release();
    assert_eq!(sem.acquire_timeout(Duration::from_millis(1)), Ok(()));
    assert_eq!(sem.available_permits(), 0);
}

#[test]
fn once_cell_keeps_first_value() {
    let mut cell = OnceCell::new();
    assert_eq!(*cell.get_or_init(|| 100), 100);
    assert_eq!(*cell.get_or_init(|| 200), 100);
    assert_eq!(cell.set(7), Err(7));
    assert_eq!(cell.into_inner(), Some(100));
    let empty: OnceCell<i32> = OnceCell::new();
    assert_eq!(empty.into_inner(), None);
}

#[test]
fn once_reports_completion() {
    let mut once = Once::new();
    assert!(!once.is_completed());
    once.call_once(|| {});
    assert!(once.is_completed());
}

#[test]
fn barrier_opens_for_last_party() {
    let mut b = Barrier::new(2);
    assert_eq!(b.wait_timeout(Duration::from_millis(1)), Err(SyncError::Timeout));
    assert_eq!(b.wait_timeout(Duration::from_millis(1)), Ok(()));
    assert_eq!(b.wait(), Ok(()));
}

#[test]
fn event_wait_timeout() {
    let mut e = Event::new();
    assert_eq!(e.wait_timeout(Duration::from_millis(1)), Err(SyncError::Timeout));
    e.set();
    assert_eq!(e.wait_timeout(Duration::from_millis(1)), Ok(()));
}

#[test]
fn test_once_cell_get_or_init() {
    let mut cell = OnceCell::new();
    let value = *cell.get_or_init(|| 100);
    assert_eq!(value, 100);
    assert_eq!(*cell.get_or_init(|| 200), 100);
}
