use async_resource::arp::acquire::{Acquire, AcquirePoll};
use async_resource::arp::config::PoolConfig;
use async_resource::arp::error::AcquireError;
use async_resource::arp::internal::PoolInternal;
use async_resource::arp::model::PoolState;
use async_resource::arp::pool::Pool;
use async_resource::poll::Poll;
use async_resource::pool::internal::CreateAttempt;
use async_resource::pool::model::Rest;
use async_resource::resource::info::ResourceInfo;
use async_resource::resource::managed::Managed;
use async_resource::resource::operation::{resource_verify, Work};

const SECOND: u128 = 1_000_000_000;

type Hook = fn(usize, ResourceInfo) -> (usize, bool);
type TestPool = PoolInternal<usize, u32, Hook>;

fn next(
    inner: &mut TestPool,
    pool: &Pool,
    source: &mut usize,
    now: u128,
) -> Managed<ResourceInfo, usize> {
    let mut acquire: Acquire<usize> = pool.acquire(inner, now);
    let res = match acquire.poll::<u32, Hook, ()>(inner, now, 0) {
        AcquirePoll::Ready(Ok(res)) => res,
        AcquirePoll::Evaluate => {
            *source += 1;
            acquire
                .complete::<u32, Hook, ()>(inner, Ok(*source), now)
                .unwrap()
        }
        _ => panic!("no resource"),
    };
    acquire.drop(inner, now);
    res
}

fn pending(inner: &mut TestPool, pool: &Pool, now: u128, waker: u32) -> Acquire<usize> {
    let mut acquire: Acquire<usize> = pool.acquire(inner, now);
    assert!(matches!(
        acquire.poll::<u32, Hook, ()>(inner, now, waker),
        AcquirePoll::Pending
    ));
    acquire
}

#[test]
fn resources_are_disposed_of_without_a_timeout() {
    let (mut inner, pool) = Pool::new(PoolConfig::new().dispose().build());
    let mut source = 0;
    let fst = next(&mut inner, &pool, &mut source, 1);
    let snd = next(&mut inner, &pool, &mut source, 2);
    assert_eq!(pool.count(&inner), 2);
    Pool::release(&mut inner, snd, 3);
    let trd = next(&mut inner, &pool, &mut source, 4);
    assert_eq!(*trd.deref(), 3);
    Pool::release(&mut inner, fst, 5);
    let disposed: Vec<usize> = inner.take_disposed().into_iter().map(|d| d.0).collect();
    assert_eq!(disposed, vec![2, 1]);
    assert_eq!(pool.count(&inner), 1);
}

#[test]
fn failed_creation_stays_counted() {
    let (mut inner, pool) = Pool::new(PoolConfig::new().max_count(2).build());
    let mut acquire: Acquire<usize> = pool.acquire(&mut inner, 1);
    assert!(matches!(
        acquire.poll::<u32, Hook, ()>(&mut inner, 1, 0),
        AcquirePoll::Evaluate
    ));
    assert!(matches!(
        acquire.complete::<u32, Hook, &str>(&mut inner, Err("broken"), 2),
        Err(AcquireError::ResourceError("broken"))
    ));
    acquire.drop(&mut inner, 2);
    assert_eq!(pool.count(&inner), 1);
    let mut source = 0;
    assert_eq!(*next(&mut inner, &pool, &mut source, 3).deref(), 1);
    assert_eq!(pool.count(&inner), 2);
    pending(&mut inner, &pool, 4, 5);
}

#[test]
fn count_may_be_passed_in_a_race() {
    let (mut inner, _pool): (TestPool, Pool) = Pool::new(PoolConfig::new().max_count(1).build());
    assert!(matches!(inner.attempt_create(0, 1), CreateAttempt::Started(_)));
    // somebody who saw none looks again, and is not held against the limit
    match inner.attempt_create(0, 2) {
        CreateAttempt::Changed(count) => {
            assert_eq!(count, 1);
            assert!(matches!(
                inner.attempt_create(count, 2),
                CreateAttempt::Started(_)
            ));
        }
        _ => panic!("not raced"),
    }
    assert_eq!(inner.count(), 2);
    assert!(matches!(inner.attempt_create(0, 3), CreateAttempt::Full));
}

#[test]
fn longest_wait_is_served_first() {
    let (mut inner, pool) = Pool::new(PoolConfig::new().max_count(1).build());
    let mut source = 0;
    let res = next(&mut inner, &pool, &mut source, 1);
    let mut first = pending(&mut inner, &pool, 2, 11);
    let mut second = pending(&mut inner, &pool, 3, 12);
    assert!(inner.take_notified());
    inner.manage(4);

    // a resource that is returned goes to the one who waits longest
    Pool::release(&mut inner, res, 5);
    inner.manage(6);
    assert_eq!(inner.take_woken(), vec![11]);
    let res = match first.poll::<u32, Hook, ()>(&mut inner, 7, 11) {
        AcquirePoll::Ready(Ok(res)) => res,
        _ => panic!("no resource"),
    };
    assert_eq!(*res.deref(), 1);
    assert!(matches!(
        second.poll::<u32, Hook, ()>(&mut inner, 7, 12),
        AcquirePoll::Pending
    ));

    Pool::release(&mut inner, res, 8);
    inner.manage(9);
    assert_eq!(inner.take_woken(), vec![12]);
    assert!(matches!(
        second.poll::<u32, Hook, ()>(&mut inner, 10, 12),
        AcquirePoll::Ready(Ok(_))
    ));
    assert_eq!(source, 1);
}

#[test]
fn wait_times_out() {
    let (mut inner, pool) = Pool::new(
        PoolConfig::new()
            .max_count(1)
            .acquire_timeout(SECOND)
            .build(),
    );
    let mut source = 0;
    let _res = next(&mut inner, &pool, &mut source, 1);
    let mut acquire = pending(&mut inner, &pool, 2, 11);
    // a timer that is set in a round counts from the next one on
    assert_eq!(inner.manage(3), Rest::Wait(None));
    assert_eq!(inner.manage(4), Rest::Wait(Some(2 + SECOND)));
    assert_eq!(inner.manage(3 + SECOND), Rest::Wait(None));
    assert_eq!(inner.take_woken(), vec![11]);
    assert!(matches!(
        acquire.poll::<u32, Hook, ()>(&mut inner, 4 + SECOND, 11),
        AcquirePoll::Ready(Err(AcquireError::Timeout))
    ));
    assert!(matches!(
        acquire.poll::<u32, Hook, ()>(&mut inner, 4 + SECOND, 11),
        AcquirePoll::Ready(Err(AcquireError::Stopped))
    ));
}

#[test]
fn creation_may_fail() {
    let (mut inner, pool): (TestPool, Pool) =
        Pool::new(PoolConfig::new().handle_error().build());
    let mut acquire: Acquire<usize> = pool.acquire(&mut inner, 1);
    assert!(matches!(
        acquire.poll::<u32, Hook, &str>(&mut inner, 1, 0),
        AcquirePoll::Evaluate
    ));
    let err = acquire
        .complete::<u32, Hook, &str>(&mut inner, Err("broken"), 2)
        .unwrap_err();
    assert_eq!(err, AcquireError::ResourceError("broken"));
    assert_eq!(inner.handle_error("seen"), Some("seen"));
}

#[test]
fn hook_decides_what_is_kept() {
    let hook: Hook = |value, _| (value + 10, value < 20);
    let (mut inner, pool) = Pool::new(
        PoolConfig::new()
            .idle_timeout(SECOND)
            .release(hook)
            .dispose()
            .build(),
    );
    let mut source = 0;
    let res = next(&mut inner, &pool, &mut source, 1);
    Pool::release(&mut inner, res, 2);
    let res = next(&mut inner, &pool, &mut source, 3);
    assert_eq!(*res.deref(), 11);
    assert_eq!(Managed::info(&res).acquire_count, 1);
    Pool::release(&mut inner, res, 4);
    let res = next(&mut inner, &pool, &mut source, 5);
    assert_eq!(*res.deref(), 21);
    Pool::release(&mut inner, res, 6);
    assert_eq!(inner.take_disposed()[0].0, 31);
    let res = next(&mut inner, &pool, &mut source, 7);
    assert_eq!(*res.deref(), 2);
}

#[test]
fn unused_resource_is_verified() {
    let (mut inner, pool) = Pool::new(
        PoolConfig::new()
            .idle_timeout(SECOND)
            .min_count(1)
            .verify()
            .build(),
    );
    let mut source = 0;
    let res = next(&mut inner, &pool, &mut source, 1);
    Pool::release(&mut inner, res, 2);
    assert_eq!(inner.manage(3), Rest::Wait(None));
    assert_eq!(inner.manage(4), Rest::Wait(Some(2 + SECOND)));
    inner.manage(3 + SECOND);
    let operation = inner.take_spawned().pop().unwrap();
    assert_eq!(operation.work, Work::Verify);
    let outcome: Result<_, ((), _)> = resource_verify(operation.guard, Ok(true));
    assert_eq!(inner.resolved(Some(outcome), 4 + SECOND), None);
    let res = next(&mut inner, &pool, &mut source, 5 + SECOND);
    assert_eq!(*res.deref(), 1);
}

#[test]
fn pool_is_emptied_when_nobody_uses_it() {
    let (mut inner, pool) = Pool::new(PoolConfig::new().idle_timeout(SECOND).build());
    let mut source = 0;
    let fst = next(&mut inner, &pool, &mut source, 1);
    let snd = next(&mut inner, &pool, &mut source, 2);
    Pool::release(&mut inner, fst, 3);
    let other = pool.clone(&mut inner);
    let mut shutdown = pool.shutdown(&mut inner, SECOND, 4);
    assert_eq!(inner.state(), PoolState::Active);
    other.drop(&mut inner);
    assert_eq!(inner.state(), PoolState::Shutdown);
    assert_ne!(inner.manage(5), Rest::Stop);
    assert_eq!(shutdown.poll(&mut inner, 9), Poll::Pending);
    assert_eq!(inner.take_disposed().len(), 1);

    Pool::release(&mut inner, snd, 6);
    assert_eq!(inner.manage(7), Rest::Stop);
    assert_eq!(inner.take_woken(), vec![9]);
    assert_eq!(shutdown.poll(&mut inner, 9), Poll::Ready(true));
    assert_eq!(inner.state(), PoolState::Stopped);
    assert_eq!(pool_disposed(&mut inner), vec![2]);
}

fn pool_disposed(inner: &mut TestPool) -> Vec<usize> {
    inner.take_disposed().into_iter().map(|d| d.0).collect()
}

#[test]
fn errors_have_names() {
    assert_eq!(AcquireError::<()>::Busy.debug(""), "AcquireError::Busy");
    assert_eq!(
        AcquireError::<()>::Stopped.debug(""),
        "AcquireError::Stopped"
    );
    assert_eq!(
        AcquireError::<()>::Timeout.debug(""),
        "AcquireError::Timeout"
    );
    assert_eq!(
        AcquireError::ResourceError(3).debug("3"),
        "AcquireError::ResourceError(3)"
    );
}

#[test]
fn request_that_is_given_up_leaves_its_resource() {
    let (mut inner, pool) = Pool::new(PoolConfig::new().max_count(1).build());
    let mut source = 0;
    let res = next(&mut inner, &pool, &mut source, 1);
    let waiting = pending(&mut inner, &pool, 2, 3);
    inner.manage(3);
    Pool::release(&mut inner, res, 4);
    inner.manage(5);
    // the resource has been sent, and comes back
    waiting.drop(&mut inner, 6);
    inner.manage(7);
    let res = next(&mut inner, &pool, &mut source, 8);
    assert_eq!(*res.deref(), 1);
    Pool::release(&mut inner, res, 8);
    assert_eq!(pool_disposed(&mut inner), vec![1]);
    let shutdown = pool.shutdown(&mut inner, SECOND, 8);
    shutdown.drop(&mut inner);
    assert_eq!(inner.manage(9), Rest::Stop);
}
