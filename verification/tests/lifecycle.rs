use std::cell::Cell;

use async_resource::arp::error::AcquireError;
use async_resource::arp::model::PoolState;
use async_resource::lifecycle::acquire::{Acquire, AcquirePoll};
use async_resource::lifecycle::config::PoolConfig;
use async_resource::lifecycle::info::ResourceInfo;
use async_resource::lifecycle::inner::PoolInner;
use async_resource::lifecycle::pool::Pool;
use async_resource::poll::Poll;
use async_resource::pool::model::Rest;
use async_resource::resource::managed::Managed;
use async_resource::resource::operation::{
    begin_update, resource_dispose, resource_update, Work,
};

const MILLI: u128 = 1_000_000;
const SECOND: u128 = 1_000 * MILLI;

type TestPool<T> = PoolInner<T, u32>;

fn next(
    inner: &mut TestPool<usize>,
    pool: &Pool,
    source: &mut usize,
    now: u128,
) -> Managed<ResourceInfo, usize> {
    let mut acquire: Acquire<usize> = pool.acquire(inner, now);
    let res = match acquire.poll::<u32, ()>(inner, now) {
        AcquirePoll::Ready(Ok(res)) => res,
        AcquirePoll::Evaluate => {
            *source += 1;
            acquire.complete::<u32, ()>(inner, Ok(*source), now).unwrap()
        }
        _ => panic!("no resource"),
    };
    acquire.drop(inner, now);
    res
}

// Run the handlers for the work that is left, and return what was disposed of.
fn work(inner: &mut TestPool<usize>, now: u128) -> Vec<usize> {
    let mut disposed = vec![];
    for operation in inner.take_spawned() {
        let mut guard = operation.guard;
        let (value, _) = begin_update(&mut guard);
        let outcome: Result<_, (&str, _)> = match operation.work {
            Work::Dispose => {
                disposed.push(value);
                resource_dispose(guard, Ok(()))
            }
            Work::Keepalive => resource_update(guard, Ok(Some(value + 100))),
            _ => panic!("unexpected"),
        };
        assert_eq!(inner.resolved(Some(outcome), now), None);
    }
    disposed
}

#[test]
fn test_pool_acquire_order_timeout() {
    let (mut inner, pool) = Pool::new(PoolConfig::new().idle_timeout(SECOND).build());
    let mut source = 0;
    let fst = next(&mut inner, &pool, &mut source, 1);
    let snd = next(&mut inner, &pool, &mut source, 2);
    assert_eq!(*fst.deref(), 1);
    assert_eq!(*snd.deref(), 2);
    Pool::release(&mut inner, snd, 3);
    let snd = next(&mut inner, &pool, &mut source, 4);
    assert_eq!(*snd.deref(), 2);
    Pool::release(&mut inner, fst, 5);
    let fst = next(&mut inner, &pool, &mut source, 6);
    assert_eq!(*fst.deref(), 1);
}

#[test]
fn test_pool_acquire_order_no_timeout() {
    let (mut inner, pool) = Pool::new(PoolConfig::new().build());
    let mut source = 0;
    let fst = next(&mut inner, &pool, &mut source, 1);
    let snd = next(&mut inner, &pool, &mut source, 2);
    assert_eq!(*fst.deref(), 1);
    assert_eq!(*snd.deref(), 2);
    Pool::release(&mut inner, snd, 3);
    let trd = next(&mut inner, &pool, &mut source, 4);
    assert_eq!(*trd.deref(), 3);
    Pool::release(&mut inner, fst, 5);
    let fth = next(&mut inner, &pool, &mut source, 6);
    assert_eq!(*fth.deref(), 4);
}

#[test]
fn test_pool_dispose() {
    let (mut inner, pool) = Pool::new(PoolConfig::new().dispose().build());
    let mut source = 0;
    let mut disposed = 0;
    let res = next(&mut inner, &pool, &mut source, 1);
    Pool::release(&mut inner, res, 2);
    let mut shutdown = pool.shutdown(&mut inner, SECOND, 3);
    assert_eq!(shutdown.poll(&mut inner, 7), Poll::Pending);
    while inner.manage(4) != Rest::Stop {
        disposed += work(&mut inner, 4).len();
    }
    assert_eq!(shutdown.poll(&mut inner, 7), Poll::Ready(true));
    assert_eq!(inner.take_woken(), vec![7]);
    assert_eq!(inner.state(), PoolState::Stopped);
    assert_eq!(disposed, 1);
}

#[test]
fn failed_creation_stays_counted_here() {
    let (mut inner, pool) = Pool::new(PoolConfig::new().max_count(2).build());
    let mut acquire: Acquire<usize> = pool.acquire(&mut inner, 1);
    assert!(matches!(
        acquire.poll::<u32, ()>(&mut inner, 1),
        AcquirePoll::Evaluate
    ));
    assert!(acquire.complete::<u32, &str>(&mut inner, Err("broken"), 2).is_err());
    acquire.drop(&mut inner, 2);
    assert_eq!(pool.queue(&inner).count(), 1);
    let mut source = 0;
    assert_eq!(*next(&mut inner, &pool, &mut source, 3).deref(), 1);
    assert_eq!(pool.queue(&inner).count(), 2);
}

#[test]
// demonstrate a resource type that is Send but !Sync
fn test_pool_not_sync() {
    let (mut inner, pool): (PoolInner<Cell<usize>, u32>, Pool) =
        Pool::new(PoolConfig::new().build());
    let mut acquire: Acquire<Cell<usize>> = pool.acquire(&mut inner, 1);
    assert!(matches!(
        acquire.poll::<u32, ()>(&mut inner, 1),
        AcquirePoll::Evaluate
    ));
    let res = acquire.complete::<u32, ()>(&mut inner, Ok(Cell::new(1)), 2);
    assert_eq!(res.unwrap().deref().get(), 1);
}

#[test]
fn request_is_answered_once() {
    let (mut inner, pool) = Pool::new(PoolConfig::new().max_count(1).build());
    let mut source = 0;
    let mut first: Acquire<usize> = pool.acquire(&mut inner, 1);
    assert!(matches!(
        first.poll::<u32, ()>(&mut inner, 1),
        AcquirePoll::Evaluate
    ));
    let mut second: Acquire<usize> = pool.acquire(&mut inner, 1);
    assert!(matches!(
        second.poll::<u32, ()>(&mut inner, 1),
        AcquirePoll::Again
    ));
    assert!(matches!(
        first.complete::<u32, &str>(&mut inner, Err("broken"), 2),
        Err(AcquireError::ResourceError("broken"))
    ));
    assert!(matches!(
        first.poll::<u32, ()>(&mut inner, 3),
        AcquirePoll::Ready(Err(AcquireError::Stopped))
    ));
    assert_eq!(pool.queue(&inner).count(), 1);
}

#[test]
fn unused_resource_is_kept_alive_or_disposed_of() {
    let (mut inner, pool) = Pool::new(
        PoolConfig::new()
            .idle_timeout(SECOND)
            .min_count(1)
            .keepalive()
            .dispose()
            .build(),
    );
    let mut source = 0;
    let fst = next(&mut inner, &pool, &mut source, 1);
    let snd = next(&mut inner, &pool, &mut source, 2);
    Pool::release(&mut inner, fst, 3);
    Pool::release(&mut inner, snd, 4);
    assert_eq!(pool.queue(&inner).count(), 2);
    // a timer that is set in a round counts from the next one on
    assert_eq!(inner.manage(5), Rest::Wait(None));
    assert_eq!(inner.manage(6), Rest::Wait(Some(3 + SECOND)));

    // one more than is kept
    assert_eq!(inner.manage(4 + SECOND), Rest::Wait(Some(4 + SECOND)));
    assert_eq!(work(&mut inner, 4 + SECOND), vec![1]);
    assert_eq!(pool.queue(&inner).count(), 1);

    // as many as are kept
    inner.manage(5 + SECOND);
    assert_eq!(work(&mut inner, 5 + SECOND), vec![]);
    assert_eq!(pool.queue(&inner).count(), 1);
    let res = next(&mut inner, &pool, &mut source, 6 + SECOND);
    assert_eq!(*res.deref(), 102);
    assert_eq!(Managed::info(&res).borrow_count, 1);
}

#[test]
fn shutdown_is_called_off_in_time() {
    let (mut inner, pool) = Pool::new(PoolConfig::new().dispose().build());
    let mut source = 0;
    let res = next(&mut inner, &pool, &mut source, 1);
    let mut shutdown = pool.shutdown(&mut inner, 10, 2);
    assert_eq!(inner.manage(3), Rest::Wait(None));
    assert_eq!(inner.manage(4), Rest::Wait(Some(12)));
    assert_eq!(shutdown.poll(&mut inner, 7), Poll::Pending);
    assert_eq!(inner.manage(13), Rest::Wait(None));
    assert_eq!(shutdown.poll(&mut inner, 7), Poll::Ready(false));

    // it goes on all the same
    Pool::release(&mut inner, res, 14);
    assert_eq!(inner.manage(15), Rest::Wait(None));
    assert_eq!(work(&mut inner, 16), vec![1]);
    assert_eq!(inner.manage(17), Rest::Stop);
}

#[test]
fn thread_count_has_a_default() {
    assert_eq!(PoolConfig::new().thread_count(3).threads(), 3);
    assert_eq!(
        PoolConfig::new().threads(),
        PoolConfig::new().max_waiters(0).threads()
    );
}

#[test]
fn nobody_has_to_wait_for_the_end() {
    let (mut inner, pool) = Pool::new(PoolConfig::new().dispose().build());
    let mut source = 0;
    let res = next(&mut inner, &pool, &mut source, 1);
    let shutdown = pool.shutdown(&mut inner, SECOND, 2);
    shutdown.drop(&mut inner);
    Pool::release(&mut inner, res, 3);
    inner.manage(4);
    assert_eq!(work(&mut inner, 5), vec![1]);
    assert_eq!(inner.manage(6), Rest::Stop);
    assert_eq!(inner.take_woken(), vec![]);
}
