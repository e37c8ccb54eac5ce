use async_resource::channel::dropshot as shot;
use async_resource::channel::dropshot::State;
use async_resource::dropshot::{channel, Canceled};
use async_resource::poll::Poll;

#[test]
fn dropshot_send_normal() {
    let (mut inner, sender, mut receiver) = shot::channel::<u32, &str>();
    let mut calls = vec![];
    assert_eq!(receiver.poll(&mut inner, "reader"), Poll::Pending);
    assert_eq!(calls.len(), 0);
    let (back, due) = sender.send(&mut inner, 1u32);
    calls.extend(due);
    assert_eq!(back, None);
    assert_eq!(calls, vec!["reader"]);
    assert_eq!(receiver.poll(&mut inner, "reader"), Poll::Ready(Ok(1u32)));
    calls.extend(sender.drop(&mut inner));
    assert_eq!(calls.len(), 1);
    assert_eq!(
        receiver.poll(&mut inner, "reader"),
        Poll::Ready(Err(shot::Canceled))
    );
    assert_eq!(calls.len(), 1);
}

#[test]
fn dropshot_dropshot_sender_dropped() {
    let (mut inner, sender, mut receiver) = shot::channel::<u32, &str>();
    let mut calls = vec![];
    assert_eq!(receiver.poll(&mut inner, "reader"), Poll::Pending);
    calls.extend(sender.drop(&mut inner));
    assert_eq!(calls.len(), 1);
    assert_eq!(
        receiver.poll(&mut inner, "reader"),
        Poll::Ready(Err(shot::Canceled))
    );
    assert_eq!(calls.len(), 1);
}

#[test]
fn dropshot_dropshot_receiver_dropped() {
    let (mut inner, sender, receiver) = shot::channel::<u32, &str>();
    assert_eq!(receiver.drop(&mut inner), None);
    assert_eq!(sender.send(&mut inner, 1u32).0, Some(1u32));
}

#[test]
fn dropshot_dropshot_test_future() {
    let (mut inner, sender, mut receiver) = shot::channel::<u32, &str>();
    assert_eq!(sender.send(&mut inner, 5), (None, None));
    assert_eq!(receiver.poll(&mut inner, "reader"), Poll::Ready(Ok(5)));
}

#[test]
fn dropshot_send_receive_poll() {
    let (mut inner, sender, mut receiver) = channel::<u32, &str>();
    let mut calls = vec![];
    assert_eq!(receiver.poll(&mut inner, "reader"), Poll::Pending);
    assert_eq!(calls.len(), 0);
    let (sent, due) = sender.send(&mut inner, 1u32);
    calls.extend(due);
    assert_eq!(sent, Ok(()));
    assert_eq!(calls, vec!["reader"]);
    assert_eq!(receiver.poll(&mut inner, "reader"), Poll::Ready(Ok(1u32)));
    assert_eq!(calls.len(), 1);
    assert_eq!(
        receiver.poll(&mut inner, "reader"),
        Poll::Ready(Err(Canceled))
    );
    assert_eq!(calls.len(), 1);
}

#[test]
fn dropshot_send_receive_block() {
    let (mut inner, sender, mut receiver) = channel::<u32, &str>();
    assert_eq!(receiver.try_recv(&mut inner), Ok(None));
    assert_eq!(sender.send(&mut inner, 1u32).0, Ok(()));
    assert_eq!(receiver.recv(&mut inner), Ok(1u32));
    assert_eq!(receiver.try_recv(&mut inner), Err(Canceled));
}

#[test]
fn dropshot_send_receive_thread() {
    let (mut inner0, sender0, mut receiver0) = channel::<u32, &str>();
    let (mut inner1, sender1, mut receiver1) = channel::<u32, &str>();
    assert_eq!(receiver1.poll(&mut inner1, "second"), Poll::Pending);
    assert_eq!(receiver0.poll(&mut inner0, "first"), Poll::Pending);
    assert_eq!(sender0.send(&mut inner0, 1u32), (Ok(()), Some("first")));
    let passed = receiver0.recv(&mut inner0).unwrap();
    assert_eq!(sender1.send(&mut inner1, passed), (Ok(()), Some("second")));
    assert_eq!(receiver1.recv(&mut inner1), Ok(1u32));
}

#[test]
fn lib_dropshot_sender_dropped() {
    let (mut inner, sender, mut receiver) = channel::<u32, &str>();
    let mut calls = vec![];
    assert_eq!(receiver.poll(&mut inner, "reader"), Poll::Pending);
    calls.extend(sender.drop(&mut inner));
    assert_eq!(calls.len(), 1);
    assert_eq!(
        receiver.poll(&mut inner, "reader"),
        Poll::Ready(Err(Canceled))
    );
    assert_eq!(calls.len(), 1);
}

#[test]
fn lib_dropshot_receiver_dropped() {
    let (mut inner, sender, receiver) = channel::<u32, &str>();
    assert_eq!(receiver.drop(&mut inner), (None, None));
    assert_eq!(sender.send(&mut inner, 1u32).0, Err(1u32));
}

#[test]
fn lib_dropshot_test_future() {
    let (mut inner, sender, mut receiver) = channel::<u32, &str>();
    sender.send(&mut inner, 5).0.unwrap();
    assert_eq!(receiver.poll(&mut inner, "reader"), Poll::Ready(Ok(5)));
}

#[test]
fn last_waker_is_the_one_that_is_due() {
    let (mut inner, sender, mut receiver) = channel::<u32, &str>();
    assert_eq!(receiver.poll(&mut inner, "first"), Poll::Pending);
    assert_eq!(receiver.poll(&mut inner, "second"), Poll::Pending);
    assert_eq!(sender.send(&mut inner, 7), (Ok(()), Some("second")));
    assert_eq!(receiver.recv(&mut inner), Ok(7));
}

#[test]
fn value_comes_back_from_a_canceled_receiver() {
    let (mut inner, sender, mut receiver) = channel::<u32, &str>();
    assert!(!sender.is_canceled(&inner));
    assert_eq!(sender.send(&mut inner, 3).0, Ok(()));
    assert_eq!(receiver.cancel(&mut inner), (Some(3), None));
    assert_eq!(receiver.try_recv(&mut inner), Err(Canceled));
}

#[test]
fn sender_learns_that_it_is_canceled() {
    let (mut inner, mut sender, receiver) = channel::<u32, &str>();
    let mut canceled = sender.cancellation(&mut inner);
    assert_eq!(canceled.poll(&mut inner, "writer"), Poll::Pending);
    assert_eq!(receiver.drop(&mut inner), (None, None));
    assert!(sender.is_canceled(&inner));
    assert_eq!(canceled.poll(&mut inner, "writer"), Poll::Ready(()));
    canceled.drop(&mut inner);
    assert_eq!(sender.send(&mut inner, 4), (Err(4), None));
}

#[test]
fn channel_state_is_reported() {
    let (mut inner, sender, _receiver) = shot::channel::<u32, &str>();
    assert_eq!(inner.state(), (State::Init, false));
    assert_eq!(sender.send(&mut inner, 5).0, None);
    assert_eq!(inner.state(), (State::Ready, false));
}

#[test]
fn canceled_channel_is_described() {
    assert_eq!(Canceled.message(), "dropshot canceled");
    assert_eq!(shot::Canceled.message(), "dropshot canceled");
}
