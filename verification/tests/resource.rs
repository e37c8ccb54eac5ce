use std::collections::HashSet;

use async_resource::dropshot::Canceled;
use async_resource::poll::Poll;
use async_resource::queue::Queue;
use async_resource::resource::info::ResourceInfo;
use async_resource::resource::lock::Store;
use async_resource::shared::SharedEvent;
use async_resource::timers::Timers;
use async_resource::wait::Waits;

fn store() -> Store<ResourceInfo, u32> {
    Store::new()
}

#[test]
fn resource_lock_debug() {
    let lock = store().add(ResourceInfo::default(1), Some(1u32));
    assert_eq!(format!("{:?}", lock.clone()), format!("{:?}", lock))
}

#[test]
fn resource_lock_eq_hash() {
    let mut store = store();
    let lock = store.add(ResourceInfo::default(1), Some(1u32));
    let lock2 = lock.clone();

    // check equality
    assert_eq!(lock, lock2);

    // check hash
    let mut set = HashSet::new();
    set.insert(lock.clone());
    assert!(set.contains(&lock));

    // try mutating value
    let mut guard = store.try_lock(lock).unwrap();
    guard.replace(2);
    store.unlock(guard);
    assert_eq!(lock, lock2);
    assert!(set.contains(&lock));

    assert_ne!(store.add(ResourceInfo::default(1), Some(1u32)), lock);
}

#[test]
fn resource_lock_is_exclusive() {
    let mut store = store();
    let lock = store.add(ResourceInfo::default(1), Some(5));
    assert!(!store.is_locked(lock));
    let mut guard = store.try_lock(lock).unwrap();
    assert!(store.is_locked(lock));
    assert!(store.try_lock(lock).is_none());
    assert_eq!(guard.as_lock(), lock);
    assert_eq!(guard.as_ref(), Some(&5));
    assert_eq!(guard.take(), Some(5));
    assert!(guard.is_none());
    assert_eq!(store.unlock(guard), lock);
    assert!(store.is_none(lock));
}

#[test]
fn detached_resource_has_a_new_lock() {
    let mut store = store();
    let lock = store.add(ResourceInfo::default(1), Some(5));
    let guard = store.try_lock(lock).unwrap();
    let guard = store.detach(guard);
    assert_ne!(guard.as_lock(), lock);
    assert!(store.is_none(lock));
    assert!(guard.is_some());
    let moved = store.unlock(guard);
    assert_eq!(store.try_unwrap(moved, false), Err(moved));
    assert_eq!(store.try_unwrap(moved, true).unwrap().1, Some(5));
}

#[test]
fn queue_is_first_in_first_out() {
    let mut store = store();
    let lock = store.add(ResourceInfo::default(1), None);
    let other = store.add(ResourceInfo::default(1), None);
    let mut queue = Queue::unbounded();
    assert!(queue.is_empty());
    assert!(queue.push(SharedEvent::Created(lock)).is_ok());
    assert!(queue.push(SharedEvent::Verify(77, other)).is_ok());
    assert!(!queue.is_empty());
    assert!(matches!(queue.pop(), Ok(SharedEvent::Created(l)) if l == lock));
    assert!(matches!(queue.pop(), Ok(SharedEvent::Verify(77, l)) if l == other));
    assert!(queue.pop().is_err());
}

#[test]
fn queue_may_be_bounded() {
    let mut queue = Queue::<usize>::bounded(1);
    assert!(queue.push(4).is_ok());
    assert!(queue.push(5).is_err());
    assert!(matches!(queue.pop(), Ok(4)));
    assert!(queue.push(6).is_ok());
    assert!(matches!(queue.pop(), Ok(6)));
}

#[test]
fn timers_are_in_order() {
    let mut timers = Timers::new();
    timers.insert(30, 1, "c");
    timers.insert(10, 2, "a");
    timers.insert(30, 3, "d");
    timers.insert(20, 4, "b");
    assert_eq!(timers.first(), Some(10));
    let due: Vec<&str> = timers.split_off(21).into_iter().map(|e| e.2).collect();
    assert_eq!(due, vec!["a", "b"]);
    assert_eq!(timers.first(), Some(30));
    let rest: Vec<&str> = timers.take_all().into_iter().map(|e| e.2).collect();
    assert_eq!(rest, vec!["c", "d"]);
    assert_eq!(timers.first(), None);
}

#[test]
fn first_reply_counts() {
    let mut waits = Waits::<u32, &str>::new();
    let (responder, waiter) = waits.waiter_pair();
    assert_eq!(waits.poll(&waiter, "w"), Poll::Pending);
    assert_eq!(waits.send(responder, 1), (Ok(()), Some("w")));
    assert_eq!(waits.send(responder, 2).0, Err(2));
    assert!(waits.is_canceled(responder));
    assert_eq!(waits.poll(&waiter, "w"), Poll::Ready(Ok(1)));
}

#[test]
fn canceled_wait_ends() {
    let mut waits = Waits::<u32, &str>::new();
    let (responder, waiter) = waits.waiter_pair();
    assert_eq!(waits.poll(&waiter, "w"), Poll::Pending);
    assert_eq!(waits.cancel(responder), Some("w"));
    assert_eq!(waits.poll(&waiter, "w"), Poll::Ready(Err(Canceled)));

    let (responder, waiter) = waits.waiter_pair();
    waits.drop_waiter(waiter);
    assert!(waits.is_abandoned(responder));
    assert_eq!(waits.send(responder, 3).0, Err(3));
}

#[test]
fn sides_of_a_wait_are_shown() {
    let mut waits = Waits::<u32, &str>::new();
    let (responder, waiter) = waits.waiter_pair();
    assert_eq!(
        responder.debug(&waits, false),
        "WaitResponder { is_canceled: false }"
    );
    waits.cancel(responder);
    assert_eq!(
        responder.debug(&waits, true),
        "WaitResponder {\n    is_canceled: true,\n}"
    );
    assert_eq!(waiter.debug(), "Waiter");
}
