use std::cell::Cell;

use async_resource::pool::acquire::{Acquire, AcquirePoll, Done};
use async_resource::pool::config::{PoolConfig, MICROSECOND};
use async_resource::pool::error::{no_default_executor, AcquireError, ConfigError};
use async_resource::pool::internal::{CreateAttempt, PoolInternal};
use async_resource::pool::model::{PoolState, Rest};
use async_resource::pool::pool::{Pool, PoolDrain};
use async_resource::poll::Poll;
use async_resource::resource::info::ResourceInfo;
use async_resource::resource::managed::Managed;
use async_resource::resource::operation::{resource_create, ResourceResolve, Work};

const MILLI: u128 = 1_000_000;
const SECOND: u128 = 1_000 * MILLI;

type Hook<T> = fn(T, ResourceInfo) -> (T, bool);
type TestPool<T> = PoolInternal<T, u32, Hook<T>>;
type Resource<T> = Managed<ResourceInfo, T>;

fn build<T>(config: PoolConfig<Hook<T>>) -> (TestPool<T>, Pool) {
    let (inner, ()) = config.build(Ok(())).unwrap();
    Pool::new(inner)
}

// Take a request further, creating resources from the counter.
fn step(
    inner: &mut TestPool<usize>,
    acquire: &mut Acquire<usize>,
    source: &mut usize,
    now: u128,
    waker: u32,
) -> AcquirePoll<usize, ()> {
    let mut result = acquire.poll(inner, now, waker);
    while let AcquirePoll::Evaluate = result {
        let done = match acquire.operation().unwrap().work {
            Work::Create => {
                *source += 1;
                Done::Created(*source)
            }
            _ => Done::Verified(true),
        };
        result = acquire.complete(inner, Ok(done), now, waker);
    }
    result
}

fn get(
    inner: &mut TestPool<usize>,
    pool: &Pool,
    source: &mut usize,
    now: u128,
) -> Result<Resource<usize>, AcquireError<()>> {
    let mut acquire = pool.acquire(inner, now);
    let result = match step(inner, &mut acquire, source, now, 0) {
        AcquirePoll::Ready(result) => result,
        _ => panic!("not decided"),
    };
    acquire.drop(inner, now);
    result
}

fn drained(
    inner: &mut TestPool<usize>,
    drain: &mut PoolDrain,
    waker: u32,
) -> Option<Result<(), Pool>> {
    match drain.poll(inner, waker) {
        Poll::Ready(result) => Some(result),
        Poll::Pending => None,
    }
}

#[test]
fn pool_test_pool_acquire_order_timeout() {
    let (mut inner, pool) = build(PoolConfig::new().idle_timeout(SECOND).dispose());
    let mut source = 0;

    let fst = get(&mut inner, &pool, &mut source, 1).unwrap();
    let snd = get(&mut inner, &pool, &mut source, 2).unwrap();
    assert_eq!(*fst.deref(), 1);
    assert_eq!(*snd.deref(), 2);

    // 2 should be returned directly to the idle queue
    Pool::release(&mut inner, snd, 3);
    let snd = get(&mut inner, &pool, &mut source, 4).unwrap();
    assert_eq!(*snd.deref(), 2);

    // 1 should be returned directly to the idle queue
    Pool::release(&mut inner, fst, 5);
    let fst = get(&mut inner, &pool, &mut source, 6).unwrap();
    assert_eq!(*fst.deref(), 1);

    // with all resources dropped, shutdown should be quick
    Pool::release(&mut inner, fst, 7);
    Pool::release(&mut inner, snd, 8);
    let mut drain = pool.drain(&mut inner, 500 * MILLI, 9);
    assert!(drained(&mut inner, &mut drain, 77).is_none());
    assert_eq!(inner.manage(10), Rest::Stop);
    assert!(drained(&mut inner, &mut drain, 77).unwrap().is_ok());
    assert_eq!(inner.take_woken(), vec![77]);
    assert_eq!(inner.state(), PoolState::Stopped);

    assert_eq!(inner.take_disposed().len(), 2);
}

#[test]
fn pool_test_pool_acquire_order_no_timeout() {
    let (mut inner, pool) = build(PoolConfig::new().dispose());
    let mut source = 0;
    let mut disposed = 0;

    let fst = get(&mut inner, &pool, &mut source, 1).unwrap();
    let snd = get(&mut inner, &pool, &mut source, 2).unwrap();
    assert_eq!(*fst.deref(), 1);
    assert_eq!(*snd.deref(), 2);
    Pool::release(&mut inner, snd, 3);

    // when there is no idle timeout and the pool is not busy (no waiters)
    // then 2 should be disposed, not returned to the idle queue
    let trd = get(&mut inner, &pool, &mut source, 4).unwrap();
    assert_eq!(*trd.deref(), 3);

    Pool::release(&mut inner, fst, 5);

    // check the resources we released (1 and 2) have been disposed
    disposed += inner.take_disposed().len();
    assert_eq!(disposed, 2);
    assert_eq!(pool.count(&inner), 1);

    // shutdown must time out because a resource is held
    let mut drain = pool.drain(&mut inner, 50 * MILLI, 6);
    assert_eq!(inner.manage(7), Rest::Wait(Some(6 + 50 * MILLI)));
    assert_eq!(inner.state(), PoolState::Drain);
    assert!(drained(&mut inner, &mut drain, 1).is_none());
    assert_eq!(inner.manage(7 + 50 * MILLI), Rest::Wait(None));
    assert_eq!(inner.state(), PoolState::Active);
    let pool = drained(&mut inner, &mut drain, 1).unwrap().unwrap_err();

    Pool::release(&mut inner, trd, 8 + 50 * MILLI);
    let mut drain = pool.drain(&mut inner, 500 * MILLI, 9 + 50 * MILLI);
    assert_eq!(inner.manage(10 + 50 * MILLI), Rest::Stop);
    assert!(drained(&mut inner, &mut drain, 1).unwrap().is_ok());
}

#[test]
// demonstrate a resource type that is Send but !Sync
fn pool_test_pool_not_sync() {
    let (mut inner, pool) = build::<Cell<usize>>(PoolConfig::new());
    let mut acquire = pool.acquire(&mut inner, 1);
    assert!(matches!(
        acquire.poll::<u32, Hook<Cell<usize>>, ()>(&mut inner, 1, 0),
        AcquirePoll::Evaluate
    ));
    match acquire.complete::<_, _, ()>(&mut inner, Ok(Done::Created(Cell::new(1))), 2, 0) {
        AcquirePoll::Ready(Ok(res)) => assert_eq!(res.deref().get(), 1),
        _ => panic!("no resource"),
    }
}

#[test]
// test support for resource waiters
fn test_pool_waiter() {
    let (mut inner, pool) = build(PoolConfig::new().max_count(1));
    let mut source = 0;
    let mut now = 1;

    // load first resource
    let mut res = get(&mut inner, &pool, &mut source, now).unwrap();

    // create waiters for the resource
    let mut waiters: Vec<Acquire<usize>> = vec![];
    for i in 0..3 {
        let mut acquire = pool.acquire(&mut inner, now);
        assert!(matches!(
            step(&mut inner, &mut acquire, &mut source, now, i),
            AcquirePoll::Pending
        ));
        waiters.push(acquire);
    }
    inner.manage(now);

    // exhaust waiters
    // since the queue is 'busy' from this point and there is no expiry,
    // the same resource will be returned each time
    for (i, mut acquire) in waiters.into_iter().enumerate() {
        assert_eq!(*res.deref(), 1);
        now += 1;
        Pool::release(&mut inner, res, now);
        assert!(inner.take_notified());
        inner.manage(now);
        assert_eq!(inner.take_woken(), vec![i as u32]);
        res = match step(&mut inner, &mut acquire, &mut source, now, 0) {
            AcquirePoll::Ready(Ok(res)) => res,
            _ => panic!("no resource"),
        };
    }
    assert_eq!(*res.deref(), 1);
    assert_eq!(source, 1);
}

#[test]
// test support for max_waiters setting
fn test_pool_max_waiters() {
    let (mut inner, pool) = build(PoolConfig::new().max_count(1).max_waiters(1));
    let mut source = 0;

    // load first resource
    let first = get(&mut inner, &pool, &mut source, 1).unwrap();
    assert_eq!(*first.deref(), 1);

    // create waiters for the resource
    let mut busy = 0;
    let mut waiting = 0;
    for _ in 0..3 {
        let mut acquire = pool.acquire(&mut inner, 2);
        match step(&mut inner, &mut acquire, &mut source, 2, 0) {
            AcquirePoll::Ready(Err(AcquireError::PoolBusy)) => busy += 1,
            AcquirePoll::Pending => waiting += 1,
            _ => panic!("unexpected"),
        }
    }
    assert_eq!(busy, 2);
    assert_eq!(waiting, 1);
}

fn pending(inner: &mut TestPool<usize>, pool: &Pool, now: u128, waker: u32) -> Acquire<usize> {
    let mut acquire = pool.acquire(inner, now);
    let mut none = 100;
    assert!(matches!(
        step(inner, &mut acquire, &mut none, now, waker),
        AcquirePoll::Pending
    ));
    acquire
}

fn disposed(inner: &mut TestPool<usize>) -> Vec<usize> {
    inner.take_disposed().into_iter().map(|d| d.0).collect()
}

#[test]
fn first_returned_is_first_out() {
    let (mut inner, pool) = build(PoolConfig::new().idle_timeout(SECOND));
    let mut source = 0;
    let held: Vec<Resource<usize>> = (0..3)
        .map(|i| get(&mut inner, &pool, &mut source, i).unwrap())
        .collect();
    assert_eq!(pool.debug(&inner, false), "Pool { count: 3 }");
    assert_eq!(pool.debug(&inner, true), "Pool {\n    count: 3,\n}");
    assert_eq!(held[0].debug(false, "1"), "1");
    assert_eq!(
        held[0].debug(true, "1"),
        "ManagedResource {\n    value: 1,\n}"
    );
    for (i, res) in held.into_iter().rev().enumerate() {
        Pool::release(&mut inner, res, 10 + i as u128);
    }
    for expected in [3, 2, 1] {
        let res = get(&mut inner, &pool, &mut source, 20).unwrap();
        assert_eq!(*res.deref(), expected);
        assert_eq!(Managed::info(&res).acquire_count, 2);
        assert_eq!(Managed::info(&res).last_acquire, Some(20));
    }
    assert_eq!(source, 3);
}

#[test]
fn count_follows_the_resources() {
    let (mut inner, pool) = build(PoolConfig::new().idle_timeout(SECOND));
    let mut source = 0;
    assert_eq!(pool.count(&inner), 0);
    let fst = get(&mut inner, &pool, &mut source, 1).unwrap();
    let mut snd = get(&mut inner, &pool, &mut source, 2).unwrap();
    assert_eq!(pool.count(&inner), 2);
    Pool::release(&mut inner, fst, 3);
    assert_eq!(pool.count(&inner), 2);
    let fst = get(&mut inner, &pool, &mut source, 4).unwrap();
    assert_eq!(pool.count(&inner), 2);
    Managed::discard(&mut snd);
    Pool::release(&mut inner, snd, 5);
    assert_eq!(pool.count(&inner), 1);
    Pool::release(&mut inner, fst, 6);
    assert_eq!(pool.count(&inner), 1);
    assert_eq!(source, 2);
}

#[test]
fn wait_for_a_resource_times_out() {
    let (mut inner, pool) = build(PoolConfig::new().max_count(1).acquire_timeout(SECOND));
    let mut source = 0;
    let _res = get(&mut inner, &pool, &mut source, 1).unwrap();
    let mut acquire = pending(&mut inner, &pool, 2, 5);
    assert_eq!(inner.manage(3), Rest::Wait(Some(2 + SECOND)));
    assert_eq!(inner.manage(3 + SECOND), Rest::Wait(None));
    assert_eq!(inner.take_woken(), vec![5]);
    assert!(matches!(
        step(&mut inner, &mut acquire, &mut source, 4 + SECOND, 5),
        AcquirePoll::Ready(Err(AcquireError::Timeout))
    ));
    assert!(matches!(
        step(&mut inner, &mut acquire, &mut source, 4 + SECOND, 5),
        AcquirePoll::Ready(Err(AcquireError::PoolClosed))
    ));
}

#[test]
fn failed_creation_is_reported() {
    let (mut inner, pool): (TestPool<usize>, Pool) = build(PoolConfig::new().handle_error());
    let mut acquire = pool.acquire(&mut inner, 1);
    assert!(matches!(
        acquire.poll::<u32, Hook<usize>, &str>(&mut inner, 1, 0),
        AcquirePoll::Evaluate
    ));
    assert!(matches!(
        acquire.complete(&mut inner, Err("broken"), 2, 0),
        AcquirePoll::Ready(Err(AcquireError::ResourceError("broken")))
    ));
    assert_eq!(inner.handle_error("seen"), Some("seen"));
    let (inner, _pool): (TestPool<usize>, Pool) = build(PoolConfig::new());
    assert_eq!(inner.handle_error("unseen"), None);
}

#[test]
fn failed_creation_makes_room() {
    let (mut inner, pool): (TestPool<usize>, Pool) = build(PoolConfig::new().max_count(1));
    let mut acquire = pool.acquire(&mut inner, 1);
    assert!(matches!(
        acquire.poll::<u32, Hook<usize>, &str>(&mut inner, 1, 0),
        AcquirePoll::Evaluate
    ));
    assert_eq!(pool.count(&inner), 1);
    inner.take_notified();
    assert!(matches!(
        acquire.complete(&mut inner, Err("broken"), 2, 0),
        AcquirePoll::Ready(Err(AcquireError::ResourceError("broken")))
    ));
    acquire.drop(&mut inner, 2);
    assert_eq!(pool.count(&inner), 0);
    assert!(inner.take_notified());
    assert_eq!(disposed(&mut inner), vec![]);
    let mut source = 0;
    let res = get(&mut inner, &pool, &mut source, 3).unwrap();
    assert_eq!(*res.deref(), 1);
    assert_eq!(pool.count(&inner), 1);
}

#[test]
fn failed_creation_in_the_background_makes_room() {
    let (mut inner, pool): (TestPool<usize>, Pool) = build(PoolConfig::new().max_count(1));
    let mut acquire = pool.acquire(&mut inner, 1);
    assert!(matches!(
        acquire.poll::<u32, Hook<usize>, &str>(&mut inner, 1, 0),
        AcquirePoll::Evaluate
    ));
    acquire.drop(&mut inner, 2);
    let operation = inner.take_spawned().pop().unwrap();
    assert_eq!(inner.resolved(Some(Err(("broken", operation.guard))), 3), None);
    assert_eq!(pool.count(&inner), 0);
    let mut source = 0;
    assert_eq!(*get(&mut inner, &pool, &mut source, 4).unwrap().deref(), 1);
}

#[test]
fn failed_check_disposes_of_the_resource() {
    let (mut inner, pool) = build(PoolConfig::new().idle_timeout(SECOND).max_count(1).verify());
    let mut source = 0;
    let res = get(&mut inner, &pool, &mut source, 1).unwrap();
    Pool::release(&mut inner, res, 2);
    let mut acquire = pool.acquire(&mut inner, 3 * SECOND);
    assert!(matches!(
        acquire.poll::<u32, Hook<usize>, &str>(&mut inner, 3 * SECOND, 0),
        AcquirePoll::Evaluate
    ));
    assert!(matches!(
        acquire.complete(&mut inner, Err("broken"), 3 * SECOND, 0),
        AcquirePoll::Ready(Err(AcquireError::ResourceError("broken")))
    ));
    acquire.drop(&mut inner, 3 * SECOND);
    assert_eq!(disposed(&mut inner), vec![1]);
    assert_eq!(pool.count(&inner), 0);
}

#[test]
fn work_on_a_resource_times_out() {
    let (mut inner, pool): (TestPool<usize>, Pool) =
        build(PoolConfig::new().acquire_timeout(SECOND));
    let mut acquire = pool.acquire(&mut inner, 1);
    assert_eq!(acquire.deadline(&inner), Some(1 + SECOND));
    assert!(matches!(
        acquire.poll::<u32, Hook<usize>, ()>(&mut inner, 1, 0),
        AcquirePoll::Evaluate
    ));
    assert!(matches!(
        acquire.poll::<u32, Hook<usize>, ()>(&mut inner, 1 + SECOND, 0),
        AcquirePoll::Evaluate
    ));
    assert!(matches!(
        acquire.poll::<u32, Hook<usize>, ()>(&mut inner, 2 + SECOND, 0),
        AcquirePoll::Ready(Err(AcquireError::Timeout))
    ));
    assert!(matches!(
        acquire.poll::<u32, Hook<usize>, ()>(&mut inner, 2 + SECOND, 0),
        AcquirePoll::Ready(Err(AcquireError::PoolClosed))
    ));
    // the creation goes on in the background
    let spawned = inner.take_spawned();
    assert_eq!(spawned.len(), 1);
    assert_eq!(spawned[0].work, Work::Create);
    assert_eq!(pool.count(&inner), 1);
}

#[test]
fn gone_resource_is_not_counted_twice() {
    let (mut inner, pool) = build(PoolConfig::new().idle_timeout(SECOND));
    let mut source = 0;
    let res = get(&mut inner, &pool, &mut source, 1).unwrap();
    Pool::release(&mut inner, res, 2);
    inner.manage(3);
    // the timer of the first return is still set when the resource is gone
    let mut res = get(&mut inner, &pool, &mut source, 4).unwrap();
    Managed::discard(&mut res);
    Pool::release(&mut inner, res, 5);
    assert_eq!(pool.count(&inner), 0);
    inner.manage(2 * SECOND);
    assert_eq!(pool.count(&inner), 0);

    // so does a drain in the round in which the resource is disposed of
    let mut res = get(&mut inner, &pool, &mut source, 3 * SECOND).unwrap();
    Managed::discard(&mut res);
    Pool::release(&mut inner, res, 3 * SECOND);
    let mut drain = pool.drain(&mut inner, SECOND, 3 * SECOND);
    assert_eq!(inner.manage(3 * SECOND), Rest::Stop);
    assert_eq!(drained(&mut inner, &mut drain, 0), Some(Ok(())));
    assert_eq!(inner.count(), 0);
}

#[test]
fn clone_keeps_the_pool_from_being_drained() {
    let (mut inner, pool): (TestPool<usize>, Pool) = build(PoolConfig::new());
    let other = pool.clone(&mut inner);
    let mut drain = pool.drain(&mut inner, SECOND, 1);
    assert_eq!(drain.debug(), "PoolDrain");
    assert_eq!(inner.manage(2), Rest::Wait(Some(1 + SECOND)));
    assert_eq!(drained(&mut inner, &mut drain, 7), None);
    assert_eq!(inner.manage(2 + SECOND), Rest::Wait(None));
    assert_eq!(inner.take_woken(), vec![7]);
    let pool = match drained(&mut inner, &mut drain, 7) {
        Some(Err(pool)) => pool,
        _ => panic!("drained"),
    };
    drain.drop(&mut inner);

    // the manager looks again when the clone is given up
    let mut drain = pool.drain(&mut inner, SECOND, 2 * SECOND);
    assert_eq!(inner.manage(2 * SECOND), Rest::Wait(Some(3 * SECOND)));
    inner.take_notified();
    other.drop(&mut inner);
    assert!(inner.take_notified());
    assert_eq!(inner.manage(2 * SECOND), Rest::Stop);
    assert_eq!(drained(&mut inner, &mut drain, 8), Some(Ok(())));
}

#[test]
fn waiters_take_turns_in_order() {
    let (mut inner, pool) = build(PoolConfig::new().max_count(1));
    let mut source = 0;
    let mut res = get(&mut inner, &pool, &mut source, 1).unwrap();
    let mut first = pending(&mut inner, &pool, 2, 11);
    let mut second = pending(&mut inner, &pool, 3, 12);
    let gone = pending(&mut inner, &pool, 4, 13);
    let mut third = pending(&mut inner, &pool, 5, 14);
    inner.manage(6);
    gone.drop(&mut inner, 7);
    for (i, (waiting, waker)) in
        [(&mut first, 11), (&mut second, 12), (&mut third, 14)].into_iter().enumerate()
    {
        let now = 10 + i as u128;
        Pool::release(&mut inner, res, now);
        inner.manage(now);
        assert_eq!(inner.take_woken(), vec![waker]);
        res = match step(&mut inner, waiting, &mut source, now, waker) {
            AcquirePoll::Ready(Ok(res)) => res,
            _ => panic!("no resource"),
        };
        assert_eq!(*res.deref(), 1);
        assert_eq!(pool.count(&inner), 1);
    }
    assert_eq!(source, 1);
    assert_eq!(disposed(&mut inner), vec![]);
}

#[test]
fn discarded_resource_is_disposed_of() {
    let (mut inner, pool) = build(PoolConfig::new().idle_timeout(SECOND));
    let mut source = 0;
    let mut res = get(&mut inner, &pool, &mut source, 1).unwrap();
    *res.deref_mut() += 40;
    Managed::discard(&mut res);
    Pool::release(&mut inner, res, 2);
    assert_eq!(disposed(&mut inner), vec![41]);
    assert_eq!(pool.count(&inner), 0);
    let res = get(&mut inner, &pool, &mut source, 3).unwrap();
    assert_eq!(*res.deref(), 2);
}

#[test]
fn resource_that_fails_its_check_is_replaced() {
    let (mut inner, pool) = build(PoolConfig::new().idle_timeout(SECOND).verify());
    let mut source = 0;
    let res = get(&mut inner, &pool, &mut source, 1).unwrap();
    Pool::release(&mut inner, res, 2);

    // it is verified once the timeout is over
    let mut acquire = pool.acquire(&mut inner, 4 + SECOND);
    let mut result = acquire.poll::<u32, Hook<usize>, ()>(&mut inner, 4 + SECOND, 0);
    assert!(matches!(result, AcquirePoll::Evaluate));
    assert_eq!(acquire.operation().unwrap().work, Work::Verify);
    assert_eq!(*acquire.value_mut(), Some(1));
    result = acquire.complete(&mut inner, Ok(Done::Verified(false)), 5 + SECOND, 0);
    assert!(matches!(result, AcquirePoll::Evaluate));
    assert_eq!(acquire.operation().unwrap().work, Work::Create);
    assert_eq!(disposed(&mut inner), vec![1]);
}

#[test]
fn given_up_request_is_completed_in_the_background() {
    let (mut inner, pool) = build(PoolConfig::new().idle_timeout(SECOND).max_count(1));
    let mut source = 5;
    let mut acquire: Acquire<usize> = pool.acquire(&mut inner, 1);
    assert!(matches!(
        acquire.poll::<u32, Hook<usize>, ()>(&mut inner, 1, 0),
        AcquirePoll::Evaluate
    ));
    acquire.drop(&mut inner, 2);
    let operation = inner.take_spawned().pop().unwrap();
    assert_eq!(operation.work, Work::Create);
    let outcome: Result<_, ((), _)> = resource_create(operation.guard, Ok(9), 3);
    assert_eq!(inner.resolved(Some(outcome), 3), None);
    let res = get(&mut inner, &pool, &mut source, 4).unwrap();
    assert_eq!(*res.deref(), 9);

    // a resource that was sent to somebody who is gone goes to the next
    let first = pending(&mut inner, &pool, 5, 1);
    let mut second = pending(&mut inner, &pool, 6, 2);
    inner.manage(7);
    Pool::release(&mut inner, res, 8);
    inner.manage(9);
    assert_eq!(inner.take_woken(), vec![1]);
    first.drop(&mut inner, 10);
    inner.manage(11);
    assert_eq!(inner.take_woken(), vec![2]);
    assert!(matches!(
        step(&mut inner, &mut second, &mut source, 12, 2),
        AcquirePoll::Ready(Ok(_))
    ));
}

#[test]
fn minimum_is_kept() {
    let (mut inner, pool) = build(PoolConfig::new().min_count(1));
    let mut source = 0;
    let fst = get(&mut inner, &pool, &mut source, 1).unwrap();
    let snd = get(&mut inner, &pool, &mut source, 2).unwrap();
    Pool::release(&mut inner, fst, 3);
    assert_eq!(disposed(&mut inner), vec![1]);
    Pool::release(&mut inner, snd, 4);
    assert_eq!(disposed(&mut inner), vec![]);
    let res = get(&mut inner, &pool, &mut source, 5).unwrap();
    assert_eq!(*res.deref(), 2);
}

#[test]
fn hook_may_refuse_a_resource() {
    let hook: Hook<usize> = |value, info| (value * 10, info.acquire_count < 2);
    let (mut inner, pool) = build(PoolConfig::new().idle_timeout(SECOND).release(hook));
    let mut source = 0;
    let res = get(&mut inner, &pool, &mut source, 1).unwrap();
    Pool::release(&mut inner, res, 2);
    let res = get(&mut inner, &pool, &mut source, 3).unwrap();
    assert_eq!(*res.deref(), 10);
    Pool::release(&mut inner, res, 4);
    assert_eq!(disposed(&mut inner), vec![100]);
}

#[test]
fn last_handle_shuts_the_pool_down() {
    let (mut inner, pool) = build(PoolConfig::new().idle_timeout(SECOND));
    let mut source = 0;
    let res = get(&mut inner, &pool, &mut source, 1).unwrap();
    let other = pool.clone(&mut inner);
    let request: Acquire<usize> = pool.acquire(&mut inner, 2);
    pool.drop(&mut inner);
    other.drop(&mut inner);
    assert_eq!(inner.state(), PoolState::Active);
    request.drop(&mut inner, 3);
    assert_eq!(inner.state(), PoolState::Shutdown);

    // the resource can still be returned
    Pool::release(&mut inner, res, 5);
    assert!(matches!(inner.manage(6), Rest::Wait(Some(_))));
    assert_eq!(disposed(&mut inner), vec![]);
    assert_eq!(inner.state(), PoolState::Shutdown);
}

#[test]
fn unused_resource_is_disposed_of_in_time() {
    let (mut inner, pool) = build(PoolConfig::new().idle_timeout(SECOND));
    let mut source = 0;
    let res = get(&mut inner, &pool, &mut source, 1).unwrap();
    Pool::release(&mut inner, res, 2);
    assert_eq!(inner.manage(3), Rest::Wait(Some(2 + SECOND)));
    assert_eq!(inner.manage(3 + SECOND), Rest::Wait(None));
    assert_eq!(disposed(&mut inner), vec![1]);
    assert_eq!(pool.count(&inner), 0);
}

#[test]
fn race_for_the_last_resource_is_lost() {
    let (mut inner, _pool): (TestPool<usize>, Pool) = build(PoolConfig::new().max_count(2));
    assert_eq!(inner.create_from_count(), Some(0));
    assert!(matches!(
        inner.attempt_create(0, 1),
        CreateAttempt::Started(ResourceResolve::Future(_))
    ));
    // the number has changed in the meantime
    assert!(matches!(
        inner.attempt_create(0, 1),
        CreateAttempt::Changed(1)
    ));
    assert!(matches!(
        inner.attempt_create(1, 1),
        CreateAttempt::Started(_)
    ));
    assert!(matches!(inner.attempt_create(1, 1), CreateAttempt::Full));
    assert_eq!(inner.create_from_count(), None);
    assert_eq!(inner.count(), 2);
}

#[test]
fn short_times_do_not_count() {
    let (mut inner, pool) = build(PoolConfig::new().idle_timeout(MICROSECOND - 1));
    let mut source = 0;
    let res = get(&mut inner, &pool, &mut source, 1).unwrap();
    Pool::release(&mut inner, res, 2);
    assert_eq!(disposed(&mut inner), vec![1]);

    let (mut inner, pool) = build(PoolConfig::new().idle_timeout(MICROSECOND));
    let res = get(&mut inner, &pool, &mut source, 1).unwrap();
    Pool::release(&mut inner, res, 2);
    assert_eq!(disposed(&mut inner), vec![]);
}

#[test]
fn errors_are_described() {
    assert_eq!(
        AcquireError::<()>::PoolBusy.message(""),
        "The resource pool is occupied"
    );
    assert_eq!(
        AcquireError::<()>::PoolClosed.message(""),
        "The resource pool is closed"
    );
    assert_eq!(
        AcquireError::ResourceError(4).message("4"),
        "Resource error: 4"
    );
    assert_eq!(
        AcquireError::<()>::Timeout.message(""),
        "The request timed out"
    );
    assert_eq!(
        AcquireError::<()>::PoolBusy.debug(false, ""),
        "AcquireError::PoolBusy"
    );
    assert_eq!(
        AcquireError::<()>::PoolClosed.debug(false, ""),
        "AcquireError::PoolClosed"
    );
    assert_eq!(
        AcquireError::ResourceError(4).debug(false, "4"),
        "AcquireError::ResourceError(4)"
    );
    assert_eq!(
        AcquireError::ResourceError(4).debug(true, "4"),
        "AcquireError::ResourceError(\n    4,\n)"
    );
    assert_eq!(
        AcquireError::<()>::Timeout.debug(false, ""),
        "AcquireError::Timeout"
    );
    let refused: Result<(TestPool<usize>, ()), ConfigError> =
        PoolConfig::new().build(Err(no_default_executor()));
    assert_eq!(
        refused.err().unwrap().message(),
        "Config error: No default executor is provided"
    );
}
