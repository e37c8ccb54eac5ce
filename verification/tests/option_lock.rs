use async_resource::once::OnceCell;
use async_resource::option_lock::{OptionGuard, OptionLock, OptionRead, ReadError, Status};
use async_resource::try_mutex::TryMutex;
use async_resource::util::debug::{indent, option, pretty_tuple, tuple};
use async_resource::util::decimal::decimal;

#[test]
fn cover_option_lock_exclusive() {
    let mut a = OptionLock::from(1);
    assert!(!a.status().is_locked());
    let mut guard = a.try_lock().unwrap();
    assert!(a.status().is_locked());
    assert!(a.try_lock().is_err());
    assert_eq!(a.try_take(), Err(ReadError::Locked));
    assert_eq!(a.try_read(), Err(ReadError::Locked));

    assert_eq!(guard.as_ref(), Some(&1));
    guard.replace(2);
    a.unlock(guard);
    let again = a.try_lock().unwrap();
    assert_eq!(again.as_ref(), Some(&2));
    a.unlock(again);
    assert!(!a.status().is_locked());
}

#[test]
fn cover_option_lock_read() {
    let mut a = OptionLock::from(99);
    assert_eq!(a.status(), Status::Available);
    assert!(!a.status().is_locked());
    assert!(a.status().can_read());
    assert!(a.status().can_take());
    assert_eq!(a.status().readers(), 0);

    let read = a.try_read().unwrap();
    assert_eq!(a.status(), Status::ReadLock(1));
    assert!(!a.status().is_locked());
    assert!(a.status().can_read());
    assert!(!a.status().can_take());
    assert_eq!(a.status().readers(), 1);
    assert_eq!(*a.deref(&read), 99);

    assert!(a.try_lock().is_err());
    assert_eq!(a.try_take(), Err(ReadError::Locked));

    let read2 = a.try_read().unwrap();
    assert_eq!(a.status(), Status::ReadLock(2));
    assert!(!a.status().is_locked());
    assert!(a.status().can_read());
    assert!(!a.status().can_take());
    assert_eq!(a.status().readers(), 2);
    assert_eq!(*a.deref(&read2), 99);

    a.release(read2);
    assert_eq!(a.status().readers(), 1);

    a.release(read);
    assert_eq!(a.status(), Status::Available);

    assert_eq!(a.try_take(), Ok(99));
    assert_eq!(a.status(), Status::Empty);
    assert_eq!(a.try_read(), Err(ReadError::Empty));
}

#[test]
fn option_lock_read_write() {
    // test a successful write after a failed read
    let mut a = OptionLock::new();
    assert_eq!(a.try_read(), Err(ReadError::Empty));
    let mut write = a.try_lock().unwrap();
    write.replace(5);
    a.unlock(write);
    let read = a.try_read().unwrap();
    assert_eq!(*a.deref(&read), 5);
}

#[test]
fn option_lock_upgrade() {
    let mut a = OptionLock::from(61);
    let read = a.try_read().unwrap();
    let write = OptionRead::try_lock(read, &mut a).unwrap();
    assert!(a.status().is_locked());
    a.unlock(write);
    assert_eq!(a.status(), Status::Available);
    drop(a);

    let mut b = OptionLock::from(5);
    let read1 = b.try_read().unwrap();
    let read2 = b.try_read().unwrap();
    assert_eq!(b.status().readers(), 2);
    let read3 = OptionRead::try_lock(read1, &mut b).unwrap_err();
    assert!(!b.status().is_locked());
    assert_eq!(b.status().readers(), 2);
    b.release(read3);
    assert_eq!(b.status().readers(), 1);
    b.release(read2);
    assert_eq!(b.status(), Status::Available);
}

#[test]
fn option_lock_downgrade() {
    let mut a = OptionLock::<u32>::new();
    let write = a.try_lock().unwrap();
    assert_eq!(OptionGuard::downgrade(write, &mut a), None);
    drop(a);

    let mut b = OptionLock::new();
    let mut write = b.try_lock().unwrap();
    write.replace(20);
    let read = OptionGuard::downgrade(write, &mut b).unwrap();
    assert_eq!(b.status(), Status::ReadLock(1));
    assert_eq!(*b.deref(&read), 20);
    b.release(read);
    assert_eq!(b.status(), Status::Available);
}

#[test]
fn option_lock_take() {
    let mut a = OptionLock::<u32>::new();
    assert_eq!(a.try_take(), Err(ReadError::Empty));
    drop(a);

    let mut b = OptionLock::from(101);
    assert_eq!(b.try_take(), Ok(101));
    drop(b);

    let mut c = OptionLock::from(42);
    let read = c.try_read().unwrap();
    assert_eq!(OptionRead::try_take(read, &mut c), Ok(42));
    drop(c);

    let mut d = OptionLock::from(11);
    let read1 = d.try_read().unwrap();
    let read2 = d.try_read().unwrap();
    let kept = OptionRead::try_take(read2, &mut d);
    assert!(kept.is_err());
    d.release(kept.unwrap_err());
    assert_eq!(OptionRead::try_take(read1, &mut d), Ok(11));
}

#[test]
fn dropped_guard_leaves_its_value() {
    let mut lock = OptionLock::from(1);
    let mut guard = lock.try_lock().unwrap();
    assert!(lock.is_locked());
    guard.replace(2);
    guard.drop(&mut lock);
    assert!(!lock.is_locked());
    assert!(lock.is_some_unlocked());
    assert_eq!(lock.try_take(), Ok(2));
    let guard = lock.try_lock().unwrap();
    guard.drop(&mut lock);
    assert!(lock.is_none_unlocked());
}

#[test]
fn option_lock_debug() {
    assert_eq!(
        OptionLock::<i32>::new().debug(),
        "OptionLock { status: Empty }"
    );
    assert_eq!(
        OptionLock::from(1).debug(),
        "OptionLock { status: Available }"
    );

    let mut lock = OptionLock::from(1);
    let read = lock.try_read().unwrap();
    let value = format!("{:?}", lock.deref(&read));
    assert_eq!(read.debug(false, &value), "1");
    assert_eq!(
        read.debug(true, &value).replace('\n', "").replace(' ', ""),
        "OptionRead(1,)"
    );
    assert_eq!(lock.debug(), "OptionLock { status: ReadLock(1) }");
    lock.release(read);

    let guard = lock.try_lock().unwrap();
    assert_eq!(guard.debug(false, &value), "Some(1)");
    assert_eq!(
        guard.debug(true, &value).replace('\n', "").replace(' ', ""),
        "OptionGuard(Some(1,),)"
    );
    assert_eq!(lock.debug(), "OptionLock { status: ExclusiveLock }");
}

#[test]
fn texts_are_those_of_the_formatter() {
    let value = Some(vec![Some(1), None]);
    assert_eq!(
        option(true, true, &format!("{:#?}", value.as_ref().unwrap())),
        format!("{:#?}", value)
    );
    assert_eq!(
        option(true, false, &format!("{:?}", value.as_ref().unwrap())),
        format!("{:?}", value)
    );
    assert_eq!(
        option(false, true, "gone"),
        format!("{:#?}", None::<Vec<u8>>)
    );
    assert_eq!(indent("a\nb\n"), "a\n    b\n    ");
    assert_eq!(tuple("Pair", "1"), "Pair(1)");
    assert_eq!(pretty_tuple("Pair", "1"), "Pair(\n    1,\n)");
    for n in [0, 7, 10, 99, 100, 90210, usize::MAX] {
        assert_eq!(decimal(n), format!("{}", n));
    }
}

#[test]
fn once_cell_is_written_once() {
    let mut cell = OnceCell::empty();
    assert_eq!(cell.debug(false, ""), "OnceCell(None)");
    assert_eq!(cell.message(""), "None");
    assert_eq!(cell.set(1), None);
    assert_eq!(cell.set(2), Some(2));
    assert_eq!(cell.get(), Some(&1));
    assert_eq!(cell.debug(false, "1"), "OnceCell(Some(1))");
    assert_eq!(
        cell.debug(true, "1"),
        "OnceCell(\n    Some(\n        1,\n    ),\n)"
    );
    assert_eq!(cell.message("1"), "1");
    *cell.get_mut().unwrap() = 3;
    assert!(!cell.is_locked());
    assert_eq!(cell.clone().into_inner(), Some(3));
    assert_eq!(OnceCell::<u8>::from(None::<u8>).into_inner(), None);
    assert_eq!(OnceCell::new(9).into_inner(), Some(9));
}

#[test]
fn try_mutex_has_one_user() {
    let mut lock = TryMutex::new(1);
    let mut guard = lock.try_lock().unwrap();
    assert!(lock.try_lock().is_none());
    *guard.deref_mut() += 1;
    assert_eq!(*guard.deref(), 2);
    lock.unlock(guard);
    assert_eq!(*lock.try_lock().unwrap().deref(), 2);
}

#[test]
fn status_is_in_writing() {
    let mut lock = OptionLock::from(5);
    let mut reads = vec![];
    for _ in 0..12 {
        reads.push(lock.try_read().unwrap());
    }
    assert_eq!(lock.status().debug(), "ReadLock(12)");
    assert_eq!(lock.get(), Some(&5));
    assert!(lock.try_take().is_err());
    for read in reads {
        lock.release(read);
    }
    assert_eq!(lock.try_take(), Ok(5));
    assert_eq!(lock.try_take(), Err(ReadError::Empty));
}
