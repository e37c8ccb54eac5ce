use async_resource::channel::drain::{Drain, DrainStep, Waiting, ROUNDS};
use async_resource::channel::mpsc;
use async_resource::channel::mpsc::Disconnected;
use async_resource::channel::single;
use async_resource::channel::thread_waker::{thread_waker, TimedWait};
use async_resource::channel::waker::UnparkWakerInner;
use async_resource::park::{pair, shared_waker, Deadline};
use async_resource::poll::Poll;

fn collect(drain: &mut Drain, queue: &mut single::Queue<u32, u32>) -> Vec<u32> {
    let mut results = vec![];
    loop {
        match drain.next(queue, 0).0 {
            DrainStep::Item(item) => results.push(item),
            DrainStep::Done => return results,
            _ => panic!("nothing to wait for"),
        }
    }
}

fn collect_all(drain: &mut Waiting, queue: &mut mpsc::Queue<u32, u32>) -> Vec<u32> {
    let mut results = vec![];
    loop {
        match drain.next(queue, 0).0 {
            DrainStep::Item(item) => results.push(item),
            DrainStep::Done => return results,
            _ => panic!("nothing to wait for"),
        }
    }
}

#[test]
fn mpsc_send_iter_receive() {
    let (mut queue, sender, mut receiver) = single::unbounded::<u32, u32>();
    sender.send(&mut queue, 1).0.unwrap();
    sender.send(&mut queue, 2).0.unwrap();
    sender.send(&mut queue, 3).0.unwrap();
    sender.drop(&mut queue);
    let results = collect(&mut receiver.iter(), &mut queue);
    assert_eq!(results, vec![1, 2, 3]);
}

#[test]
fn mod_send_iter_receive() {
    let (mut queue, sender, mut receiver) = mpsc::unbounded::<u32, u32>();
    sender.send(&mut queue, 1).unwrap();
    sender.send(&mut queue, 2).unwrap();
    sender.send(&mut queue, 3).unwrap();
    sender.drop(&mut queue);
    let results = collect_all(&mut receiver.iter(), &mut queue);
    assert_eq!(results, vec![1, 2, 3]);
}

#[test]
fn many_values_cross_blocks_in_order() {
    let (mut queue, sender, receiver) = single::unbounded::<u32, u32>();
    for i in 0..200 {
        sender.send(&mut queue, i).0.unwrap();
        if i % 3 == 0 {
            assert_eq!(receiver.try_recv(&mut queue), Some(i / 3));
        }
    }
    for i in 67..200 {
        assert_eq!(receiver.try_recv(&mut queue), Some(i));
    }
    assert_eq!(receiver.try_recv(&mut queue), None);

    let (mut queue, sender, mut receiver) = mpsc::unbounded::<u32, u32>();
    for i in 0..200 {
        sender.send(&mut queue, i).unwrap();
    }
    for i in 0..200 {
        assert_eq!(receiver.try_recv(&mut queue), Ok(Some(i)));
    }
    assert_eq!(receiver.try_recv(&mut queue), Ok(None));
    sender.drop(&mut queue);
    assert_eq!(receiver.try_recv(&mut queue), Err(Disconnected));
}

#[test]
fn a_slow_sender_holds_up_the_reader() {
    let (mut queue, _sender, _receiver) = single::unbounded::<u32, u32>();
    let first = queue.reserve().unwrap();
    let second = queue.reserve().unwrap();
    queue.commit(second, 2);
    assert_eq!(queue.pop(), None);
    queue.commit(first, 1);
    assert_eq!(queue.pop(), Some(1));
    assert_eq!(queue.pop(), Some(2));

    let (mut queue, _sender, _receiver) = mpsc::unbounded::<u32, u32>();
    let first = queue.reserve().unwrap();
    let second = queue.reserve().unwrap();
    queue.commit(second, 2);
    assert!(!queue.is_written());
    queue.commit(first, 1);
    assert!(queue.is_written());
    assert_eq!(queue.pop(), Ok(Some(1)));
    assert_eq!(queue.pop(), Ok(Some(2)));
}

#[test]
fn reader_is_woken() {
    let (mut queue, sender, mut receiver) = single::unbounded::<u32, u32>();
    assert_eq!(receiver.poll_next(&mut queue, 9), (Poll::Pending, None));
    assert_eq!(sender.send(&mut queue, 1), (Ok(()), Some(9)));
    assert_eq!(
        receiver.poll_next(&mut queue, 9),
        (Poll::Ready(Some(1)), None)
    );
    assert_eq!(receiver.poll_next(&mut queue, 8), (Poll::Pending, None));
    assert_eq!(sender.drop(&mut queue), Some(8));
    assert_eq!(receiver.poll_next(&mut queue, 8).0, Poll::Ready(None));

    let (mut queue, sender, mut receiver) = mpsc::unbounded::<u32, u32>();
    assert_eq!(receiver.poll_next(&mut queue, 9), (Poll::Pending, None));
    assert_eq!(sender.drop(&mut queue), Some(9));
    assert_eq!(receiver.poll_next(&mut queue, 9).0, Poll::Ready(None));
}

#[test]
fn closed_queue_refuses_values() {
    let (mut queue, sender, mut receiver) = single::unbounded::<u32, u32>();
    sender.send(&mut queue, 1).0.unwrap();
    assert!(receiver.close(&mut queue));
    assert!(!receiver.close(&mut queue));
    assert!(queue.rx_closed());
    assert_eq!(sender.send(&mut queue, 2), (Err(2), None));
    assert_eq!(collect(&mut receiver.try_iter(), &mut queue), vec![1]);

    let (mut queue, sender, receiver) = mpsc::unbounded::<u32, u32>();
    sender.send(&mut queue, 1).unwrap();
    let mut values = receiver.into_iter(&mut queue);
    assert_eq!(sender.send(&mut queue, 2), Err(2));
    sender.drop(&mut queue);
    assert_eq!(collect_all(&mut values, &mut queue), vec![1]);
}

#[test]
fn senders_are_counted() {
    let (mut queue, mut sender, mut receiver) = mpsc::unbounded::<u32, u32>();
    let other = sender.clone(&mut queue);
    assert_eq!(sender.close(&mut queue), None);
    assert!(!queue.tx_closed());
    let closed = sender.clone(&mut queue);
    assert_eq!(closed.drop(&mut queue), None);
    other.send(&mut queue, 6).unwrap();
    other.drop(&mut queue);
    assert!(queue.tx_closed());
    let mut rest = receiver.try_iter();
    assert_eq!(rest.next(&mut queue), Some(6));
    assert_eq!(rest.next(&mut queue), None);
}

#[test]
fn sender_as_a_sink() {
    let (mut queue, mut sender, receiver) = single::unbounded::<u32, u32>();
    assert_eq!(sender.poll_ready::<u32>(), Poll::Ready(Ok(())));
    assert_eq!(sender.start_send(&mut queue, 4), (Ok(()), None));
    assert_eq!(sender.poll_flush::<u32>(), Poll::Ready(Ok(())));
    assert_eq!(sender.poll_close(&mut queue), (Poll::Ready(Ok(())), None));
    assert!(queue.tx_closed());
    assert_eq!(receiver.try_recv(&mut queue), Some(4));

    let (mut queue, mut sender, mut receiver) = mpsc::unbounded::<u32, u32>();
    assert_eq!(sender.poll_ready::<u32>(), Poll::Ready(Ok(())));
    assert_eq!(sender.start_send(&mut queue, 4), Ok(()));
    assert_eq!(sender.poll_flush::<u32>(), Poll::Ready(Ok(())));
    assert_eq!(sender.poll_close(&mut queue), (Poll::Ready(Ok(())), None));
    assert_eq!(receiver.try_recv(&mut queue), Ok(Some(4)));
    assert_eq!(receiver.try_recv(&mut queue), Err(Disconnected));
}

#[test]
fn drain_waits_after_a_few_rounds() {
    let (mut queue, sender, mut receiver) = mpsc::unbounded::<u32, u32>();
    let mut drain = receiver.iter();
    for _ in 0..ROUNDS {
        assert_eq!(drain.next(&mut queue, 5), (DrainStep::Yield, None));
    }
    assert_eq!(drain.next(&mut queue, 5), (DrainStep::Park, None));
    assert_eq!(sender.drop(&mut queue), Some(5));
    assert_eq!(drain.next(&mut queue, 5), (DrainStep::Done, None));

    let (mut queue, sender, mut receiver) = single::unbounded::<u32, u32>();
    assert_eq!(
        receiver.iter().next(&mut queue, 5),
        (DrainStep::Park, None)
    );
    assert_eq!(sender.send(&mut queue, 1), (Ok(()), Some(5)));
    assert_eq!(
        receiver.try_iter().next(&mut queue, 5),
        (DrainStep::Item(1), None)
    );
    assert_eq!(
        receiver.try_iter().next(&mut queue, 5),
        (DrainStep::Done, None)
    );
}

#[test]
fn what_is_left_is_dropped_with_the_queue() {
    let (mut queue, sender, _receiver) = mpsc::unbounded::<u32, u32>();
    sender.send(&mut queue, 1).unwrap();
    sender.send(&mut queue, 2).unwrap();
    assert!(!queue.is_empty());
    assert_eq!(queue.drop(), vec![1, 2]);
}

#[test]
fn notification_before_the_wait_counts() {
    let (mut inner, waker, waiter) = pair::<u32>();
    waiter.prepare_wait(&mut inner, 1);
    assert_eq!(waker.wake(&mut inner), None);
    assert!(!waiter.wait(&mut inner));

    waiter.prepare_wait(&mut inner, 1);
    assert!(waiter.wait(&mut inner));
    assert_eq!(waker.clone().wake(&mut inner), Some(1));
    assert_eq!(waker.wake(&mut inner), None);
    assert!(inner.is_notified());
}

#[test]
fn wait_has_a_deadline() {
    let (mut inner, waker, waiter) = shared_waker::<u32>();
    waiter.prepare_wait(&mut inner, 1);
    assert_eq!(waiter.wait_until(&mut inner, 10, 25), Deadline::Park(15));
    assert_eq!(inner.check_deadline(true, 20, 25), Deadline::Park(5));
    assert_eq!(inner.check_deadline(true, 26, 25), Deadline::Expired);
    assert_eq!(waker.wake(&mut inner), Some(1));
    assert_eq!(inner.check_deadline(true, 26, 25), Deadline::Notified);
    assert_eq!(waiter.wait_until(&mut inner, 10, 25), Deadline::Notified);
}

#[test]
fn thread_waker_keeps_one_notification() {
    let (mut inner, waiter, waker) = thread_waker();
    assert!(!waiter.wait(&mut inner));
    waker.wake(&mut inner);
    assert!(waiter.wait(&mut inner));
    assert!(!waiter.wait(&mut inner));
    assert_eq!(waiter.wait_timeout(&mut inner, 3, 10), TimedWait::Park(7));
    assert_eq!(waiter.wait_timeout(&mut inner, 10, 10), TimedWait::TimedOut);
    waker.wake(&mut inner);
    assert_eq!(waiter.wait_timeout(&mut inner, 10, 10), TimedWait::Woken);
}

#[test]
fn unpark_waker_wakes_once() {
    let mut inner = UnparkWakerInner::new(Some(1));
    assert_eq!(inner.register(2), None);
    assert_eq!(inner.wake_by_ref(), Some(2));
    assert_eq!(inner.wake_by_ref(), None);
    assert_eq!(inner.register(3), None);
    inner.cancel();
    assert_eq!(inner.wake_by_ref(), None);
}

#[test]
fn disconnected_queue_is_described() {
    assert_eq!(Disconnected.message(), "dropshot canceled");
}
