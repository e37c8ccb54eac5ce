use std::rc::Rc;

use async_resource::executor::{
    default_executor, hold_instance, install, BoundedExecutor, Instance, MultitaskExecutor, Ticker,
    GLOBAL_THREADS,
};
use async_resource::option_lock;
use async_resource::poll::Poll;
use async_resource::util::injector;
use async_resource::util::injector::{Closed, Next};
use async_resource::util::option_lock::{OptionLock, ReadError, Status};
use async_resource::util::thread::{constructed, State, ThreadResource, Turn};

#[test]
fn option_lock_option_lock_exclusive() {
    let mut a = OptionLock::from(1);
    assert!(!a.status().is_locked());
    let guard = a.try_lock().unwrap();
    assert!(a.status().is_locked());
    assert_eq!(a.try_lock(), None);
    assert_eq!(a.try_take(), None);
    assert_eq!(a.read(), Err(ReadError::Locked));

    assert_eq!(*a.deref_mut(&guard), Some(1));
    a.deref_mut(&guard).replace(2);
    a.unlock(guard);
    let again = a.try_lock().unwrap();
    assert_eq!(*a.deref_mut(&again), Some(2));
    a.unlock(again);
    assert!(!a.status().is_locked());
}

#[test]
fn handles_of_one_lock_are_equal() {
    let mut a = OptionLock::from(1);
    let mut b = OptionLock::from(1);
    let read = a.read().unwrap();
    assert_eq!(read, a.read().unwrap());
    assert_ne!(read, b.read().unwrap());
    let mut c = OptionLock::<u8>::new();
    let mut d = OptionLock::<u8>::new();
    let guard = c.try_lock().unwrap();
    assert_ne!(guard, d.try_lock().unwrap());
    assert_eq!(guard, guard);
}

#[test]
fn handles_are_shown() {
    let mut a = OptionLock::from(1);
    let read = a.read().unwrap();
    assert_eq!(read.debug(false, "1"), "1");
    assert_eq!(read.debug(true, "1"), "OptionRead(\n    1,\n)");
    a.release(read);
    let guard = a.try_lock().unwrap();
    assert_eq!(guard.debug(&a, false, "1"), "Some(1)");
    assert_eq!(
        guard.debug(&a, true, "1"),
        "OptionGuard(\n    Some(\n        1,\n    ),\n)"
    );
    a.deref_mut(&guard).take();
    assert_eq!(guard.debug(&a, false, ""), "None");
}

#[test]
fn option_lock_option_lock_read() {
    let mut a = OptionLock::from(99);
    assert_eq!(a.status(), Status::Available);
    assert!(!a.status().is_locked());
    assert!(a.status().is_some());
    assert_eq!(a.status().readers(), 0);

    let read = a.read().unwrap();
    assert_eq!(a.status(), Status::ReadLock(1));
    assert!(!a.status().is_locked());
    assert!(a.status().is_some());
    assert_eq!(a.status().readers(), 1);
    assert_eq!(*a.deref(&read), 99);

    assert_eq!(a.try_lock(), None);
    assert_eq!(a.try_take(), None);

    let read2 = a.read().unwrap();
    assert_eq!(a.status(), Status::ReadLock(2));
    assert!(!a.status().is_locked());
    assert!(a.status().is_some());
    assert_eq!(a.status().readers(), 2);
    assert_eq!(*a.deref(&read2), 99);

    a.release(read2);
    assert_eq!(a.status().readers(), 1);

    a.release(read);
    assert_eq!(a.status(), Status::Available);

    assert_eq!(a.try_take(), Some(99));
    assert_eq!(a.status(), Status::Empty);
    assert_eq!(a.read(), Err(ReadError::Empty));
}

#[test]
fn option_lock_read_upgrade() {
    let mut a = OptionLock::from(61);
    let read = a.read().unwrap();
    let write = a.upgrade_lock(read).unwrap();
    assert!(a.status().is_locked());
    a.unlock(write);
    assert_eq!(a.status(), Status::Available);

    let mut b = OptionLock::from(5);
    let read1 = b.read().unwrap();
    let read2 = b.read().unwrap();
    assert_eq!(b.status().readers(), 2);
    let read3 = b.upgrade_lock(read1).unwrap_err();
    assert!(!b.status().is_locked());
    assert_eq!(b.status().readers(), 2);
    b.release(read3);
    assert_eq!(b.status().readers(), 1);
    b.release(read2);
    assert_eq!(b.status(), Status::Available);
}

type Run<T> = Box<dyn FnOnce(&mut T)>;
type Extract<T, R> = Box<dyn FnOnce(T) -> R>;

// Run commands like the thread of a resource.
fn work<T, R>(state: &mut State<Run<T>, Extract<T, R>>, mut res: T) -> Result<R, T> {
    loop {
        match state.turn() {
            Turn::Run(f) => f(&mut res),
            Turn::Extract(f) => {
                state.stopped();
                return Ok(f(res));
            }
            Turn::Stop => {
                state.stopped();
                return Err(res);
            }
            Turn::Wait => {
                assert!(state.take_notified());
                return Err(res);
            }
        }
    }
}

#[test]
fn thread_resource_basic() {
    let mut state = State::new();
    let (res, start) = constructed::<u32, ()>(Ok(100u32));
    let mut handle = ThreadResource::try_create(start).unwrap();
    let f: Run<u32> = Box::new(|i| *i += 1);
    assert!(handle.enter(&mut state, f));
    let res = work::<u32, u32>(&mut state, res.unwrap()).unwrap_err();
    let g: Extract<u32, u32> = Box::new(|res| res);
    assert!(handle.extract(&mut state, g));
    assert_eq!(work(&mut state, res), Ok(101));
}

#[test]
fn thread_resource_not_send() {
    let mut state = State::new();
    let res = Rc::new(100u32);
    let mut handle = ThreadResource::create();
    let f: Run<Rc<u32>> = Box::new(|i| *Rc::get_mut(i).unwrap() += 1);
    assert!(handle.enter(&mut state, f));
    let res = work::<Rc<u32>, u32>(&mut state, res).unwrap_err();
    let g: Extract<Rc<u32>, u32> = Box::new(|i| Rc::try_unwrap(i).unwrap());
    assert!(handle.extract(&mut state, g));
    assert_eq!(work(&mut state, res), Ok(101));
}

#[test]
fn thread_resource_constructor_fails() {
    let (res, start) = constructed::<u32, &str>(Err("no"));
    assert_eq!(res, None);
    assert_eq!(ThreadResource::try_create(start), Err("no"));
}

#[test]
fn thread_takes_one_command_at_a_time() {
    let mut state: State<u8, u8> = State::new();
    let mut handle = ThreadResource::create();
    assert!(handle.enter(&mut state, 1));
    assert!(!handle.enter(&mut state, 2));
    assert!(state.take_notified());
    assert!(matches!(state.turn(), Turn::Run(1)));
    assert!(matches!(state.turn(), Turn::Wait));
    assert!(handle.drop(&mut state));
    assert!(matches!(state.turn(), Turn::Stop));
    state.stopped();
    let mut handle = ThreadResource::create();
    assert!(!handle.enter(&mut state, 3));
    assert!(matches!(state.turn(), Turn::Wait));
}

#[test]
fn injector_is_first_in_first_out() {
    let (mut channel, sender, mut receiver) = injector::unbounded::<String>();
    let other = sender.clone();
    assert_eq!(sender.send(&mut channel, "a".to_string()), Ok(()));
    assert_eq!(other.send(&mut channel, "b".to_string()), Ok(()));
    let mut iter = receiver.iter(&mut channel);
    assert_eq!(iter.next(&mut channel), Next::Item("a".to_string()));
    assert_eq!(sender.send(&mut channel, "c".to_string()), Ok(()));
    assert_eq!(
        iter.poll_next(&mut channel),
        Poll::Ready(Some("b".to_string()))
    );
    assert_eq!(iter.next(&mut channel), Next::Item("c".to_string()));
    assert_eq!(iter.next(&mut channel), Next::Park);
    assert_eq!(iter.poll_next(&mut channel), Poll::Pending);
    iter.drop(&mut channel);
    assert_eq!(receiver.recv(&mut channel), Err(Closed));
}

#[test]
fn bounded_injector_fills_up() {
    let (mut channel, sender, mut receiver) = injector::bounded::<u32>(2);
    assert_eq!(sender.send(&mut channel, 1), Ok(()));
    assert_eq!(sender.send(&mut channel, 2), Ok(()));
    assert_eq!(sender.send(&mut channel, 3), Err(3));
    let mut iter = receiver.iter(&mut channel);
    assert_eq!(iter.next(&mut channel), Next::Item(1));
    assert_eq!(sender.send(&mut channel, 3), Ok(()));
    assert_eq!(iter.next(&mut channel), Next::Item(2));
    assert_eq!(iter.next(&mut channel), Next::Item(3));
    assert_eq!(iter.next(&mut channel), Next::Park);
}

#[test]
fn executor_threads_are_counted() {
    let (mut exec, threads) = BoundedExecutor::new(GLOBAL_THREADS);
    assert_eq!(threads, 5);
    for _ in 0..threads {
        exec.started();
    }
    assert!(!exec.ended(true));
    assert_eq!(exec.drop_handle(1), None);
    assert_eq!(exec.drop_handle(0), Some(5));
}

#[test]
fn instance_is_created_once() {
    let mut lock = option_lock::OptionLock::new();
    let guard = match BoundedExecutor::global(&mut lock) {
        Instance::Create(guard) => guard,
        _ => panic!("there is none"),
    };
    assert!(matches!(
        BoundedExecutor::global(&mut lock),
        Instance::Wait
    ));
    let (exec, _) = BoundedExecutor::new(GLOBAL_THREADS);
    install(&mut lock, guard, exec);
    match BoundedExecutor::global(&mut lock) {
        Instance::Ready(read) => lock.release(read),
        _ => panic!("it is there"),
    }

    let mut lock = option_lock::OptionLock::from(8);
    match hold_instance(&mut lock) {
        Instance::Held(guard) => {
            assert_eq!(guard.as_ref(), Some(&8));
            assert!(matches!(hold_instance(&mut lock), Instance::Wait));
            lock.unlock(guard);
        }
        _ => panic!("it is there"),
    }
    let mut other = option_lock::OptionLock::<MultitaskExecutor<u32>>::new();
    assert!(matches!(
        MultitaskExecutor::global(&mut other),
        Instance::Create(_)
    ));
}

#[test]
fn idle_thread_rests() {
    let mut exec = MultitaskExecutor::new(2);
    exec.prepare_wait(0, "a");
    assert_eq!(exec.rest(0), Ticker::Park);
    exec.prepare_wait(1, "b");
    assert_eq!(exec.wake(1), None);
    assert_eq!(exec.rest(1), Ticker::Tick);
    assert_eq!(exec.drop_handle(2), vec![]);
    assert_eq!(exec.drop_handle(0), vec![Some("a"), None]);
    exec.prepare_wait(0, "a");
    assert_eq!(exec.rest(0), Ticker::Stop);
}

#[test]
fn executor_has_to_be_provided() {
    assert_eq!(default_executor(Some(3)).unwrap(), 3);
    assert_eq!(
        default_executor(None::<u8>).unwrap_err().message(),
        "Config error: No default executor is provided"
    );
}
