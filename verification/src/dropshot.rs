//! A channel for a single value.
//!
//! The two ends share one [`Inner`]. Each operation either belongs to one of
//! the ends or tells that it is gone. Where the other end waits for what an
//! operation brings about, the operation hands out the waker that is due.

use vstd::prelude::*;

use crate::notify::{after_poll, due, NotifyOnce, NotifyState};
use crate::poll::Poll;

verus! {

/// The value did not and will not arrive.
#[derive(Clone, Copy, Debug, PartialEq, Eq, Structural)]
pub struct Canceled;

impl Canceled {
    /// A description.
    pub fn message(&self) -> (r: String)
        ensures
            r@ == "dropshot canceled"@,
    {
        "dropshot canceled".to_owned()
    }
}

/// How far the sending side has come.
#[derive(Clone, Copy, Debug, PartialEq, Eq, Structural)]
pub enum SendState {
    /// Nothing was sent.
    Init,
    /// The value is being stored, or is there.
    Load,
    /// One of the ends has given up.
    Cancel,
    /// The value was there and has left.
    Sent,
}

/// A channel, as far as its ends can tell.
pub ghost struct Shot<T, W> {
    /// How far the sending side has come.
    pub send: SendState,
    /// Whether the sender has asked to be told when the receiver gives up.
    pub registered: bool,
    /// What the receiver waits for.
    pub recv: NotifyState<W>,
    /// What the sender waits for.
    pub cancel: NotifyState<W>,
    /// The value, while it is in the channel.
    pub data: Option<T>,
}

/// A value is in the channel only after it was stored and before it left.
pub open spec fn shot_inv<T, W>(s: Shot<T, W>) -> bool {
    s.data is Some ==> s.send is Load
}

/// A state with the mark of cancellation.
pub open spec fn canceled(send: SendState) -> SendState {
    match send {
        SendState::Init => SendState::Cancel,
        SendState::Load => SendState::Sent,
        other => other,
    }
}

/// The channel after the receiver gave up.
///
/// The first time only stops the wait. A receiver that is not waiting leaves
/// its mark, takes back a value that is there, and has the sender told.
pub open spec fn after_cancel_recv<T, W>(s: Shot<T, W>) -> Shot<T, W> {
    if !(s.recv is Idle) {
        Shot { recv: NotifyState::Idle, ..s }
    } else {
        match s.send {
            SendState::Init => Shot {
                send: SendState::Cancel,
                cancel: if s.registered {
                    NotifyState::Idle
                } else {
                    s.cancel
                },
                ..s
            },
            SendState::Load => Shot { send: SendState::Sent, data: None, ..s },
            _ => s,
        }
    }
}

/// The value that a receiver which gives up finds in the channel.
pub open spec fn taken_by_cancel<T, W>(s: Shot<T, W>) -> Option<T> {
    if s.recv is Idle && s.send is Load {
        s.data
    } else {
        None
    }
}

/// The waker of the sender that is due when the receiver gives up.
pub open spec fn due_on_cancel<T, W>(s: Shot<T, W>) -> Option<W> {
    if s.recv is Idle && s.send is Init && s.registered {
        due(s.cancel)
    } else {
        None
    }
}

/// The channel after the sender was dropped.
pub open spec fn after_cancel_send<T, W>(s: Shot<T, W>) -> Shot<T, W> {
    if s.send is Init {
        Shot { send: SendState::Cancel, recv: NotifyState::Idle, ..s }
    } else {
        s
    }
}

/// The channel after the sender asked to be told, or no longer wants to be
/// told, when the receiver gives up.
pub open spec fn after_poll_canceled<T, W>(s: Shot<T, W>, register: bool) -> Shot<T, W> {
    if s.recv is Idle {
        s
    } else {
        Shot { send: SendState::Init, registered: register, ..s }
    }
}

/// Check that the sender sees that the receiver has given up.
pub open spec fn sees_cancel<T, W>(s: Shot<T, W>) -> bool {
    s.recv is Idle || s.send is Cancel || s.send is Sent
}

/// The channel after the value was stored, before the receiver was told.
pub open spec fn after_load<T, W>(s: Shot<T, W>, value: T) -> Shot<T, W> {
    Shot { send: SendState::Load, data: Some(value), ..s }
}

/// The channel after the receiver was told of the value, or the value was taken
/// back from a receiver that has given up.
pub open spec fn after_finish<T, W>(s: Shot<T, W>) -> Shot<T, W> {
    if s.recv is Idle {
        Shot { data: None, ..s }
    } else {
        Shot { recv: NotifyState::Idle, ..s }
    }
}

/// One attempt at receiving.
pub ghost enum Attempt<T> {
    /// Nothing was sent.
    Pending,
    /// The value, or the certainty that there is none.
    Ready(Result<T, Canceled>),
    /// The other end is in the middle of something.
    Again,
}

/// What an attempt at receiving finds.
pub open spec fn attempt<T, W>(s: Shot<T, W>, waits: bool) -> Attempt<T> {
    match s.send {
        SendState::Init => if waits && s.recv is Idle {
            Attempt::Again
        } else {
            Attempt::Pending
        },
        SendState::Load => if s.recv is Idle {
            match s.data {
                Some(v) => Attempt::Ready(Ok(v)),
                None => Attempt::Ready(Err(Canceled)),
            }
        } else if waits {
            Attempt::Pending
        } else {
            Attempt::Again
        },
        _ => Attempt::Ready(Err(Canceled)),
    }
}

/// The channel after an attempt at receiving.
pub open spec fn after_attempt<T, W>(s: Shot<T, W>, waker: Option<W>) -> Shot<T, W> {
    match s.send {
        SendState::Load if s.recv is Idle => Shot { send: SendState::Sent, data: None, ..s },
        SendState::Init | SendState::Load => match waker {
            Some(w) => Shot { recv: after_poll(s.recv, w), ..s },
            None => s,
        },
        _ => s,
    }
}

/// The state that the two ends share.
pub struct Inner<T, W> {
    data: Option<T>,
    recv_task: NotifyOnce<W>,
    send_state: SendState,
    registered: bool,
    cancel: NotifyOnce<W>,
}

impl<T, W> View for Inner<T, W> {
    type V = Shot<T, W>;

    closed spec fn view(&self) -> Shot<T, W> {
        Shot {
            send: self.send_state,
            registered: self.registered,
            recv: self.recv_task@,
            cancel: self.cancel@,
            data: self.data,
        }
    }
}

/// What one attempt at receiving found.
pub enum Received<T> {
    /// Nothing was sent.
    Pending,
    /// The value, or the certainty that there is none.
    Ready(Result<T, Canceled>),
    /// The other end is in the middle of something.
    Again,
}

impl<T, W> Inner<T, W> {
    /// Create the state of a channel through which nothing was sent.
    pub fn new() -> (r: Self)
        ensures
            r@ == (Shot::<T, W> {
                send: SendState::Init,
                registered: false,
                recv: NotifyState::Waiting,
                cancel: NotifyState::Waiting,
                data: None,
            }),
    {
        Inner {
            data: None,
            recv_task: NotifyOnce::new(),
            send_state: SendState::Init,
            registered: false,
            cancel: NotifyOnce::new(),
        }
    }

    /// Mark the channel, and report how far the sending side had come.
    fn mark_canceled(&mut self) -> (prev: SendState)
        ensures
            prev == old(self)@.send,
            final(self)@ == (Shot::<T, W> { send: canceled(old(self)@.send), ..old(self)@ }),
    {
        let prev: SendState = self.send_state;
        self.send_state = match prev {
            SendState::Init => SendState::Cancel,
            SendState::Load => SendState::Sent,
            other => other,
        };
        prev
    }

    /// The receiver gives up.
    ///
    /// Returns the value that it finds, and the waker of the sender that is
    /// due.
    pub fn cancel_recv(&mut self) -> (r: (Option<T>, Option<W>))
        ensures
            r.0 == taken_by_cancel(old(self)@),
            r.1 == due_on_cancel(old(self)@),
            final(self)@ == after_cancel_recv(old(self)@),
    {
        if !self.recv_task.cancel() {
            // already woken by sender, so result is loaded or canceled
            match self.mark_canceled() {
                SendState::Init => {
                    if self.registered {
                        let (_, waker) = self.cancel.complete();
                        return (None, waker);
                    }
                },
                SendState::Load => {
                    return (self.take(), None);
                },
                _ => (),
            }
        }
        (None, None)
    }

    /// The sender is dropped.
    ///
    /// A sender cannot be dropped while it waits for the receiver to give up.
    /// Returns the waker of the receiver that is due.
    pub fn cancel_send(&mut self) -> (r: Option<W>)
        requires
            !old(self)@.registered,
        ensures
            r == (if old(self)@.send is Init {
                due(old(self)@.recv)
            } else {
                None
            }),
            final(self)@ == after_cancel_send(old(self)@),
    {
        match self.send_state {
            SendState::Init => {
                self.send_state = SendState::Cancel;
                let (_, waker) = self.recv_task.complete();
                waker
            },
            _ => None,
        }
    }

    /// The sender asks, or ceases to ask, to be told when the receiver gives
    /// up. Returns whether the receiver has given up already.
    ///
    /// Only a sender that has not sent anything can ask.
    pub fn poll_canceled(&mut self, register: bool) -> (r: Poll<()>)
        requires
            old(self)@.send is Init || old(self)@.send is Cancel,
        ensures
            r is Ready <==> sees_cancel(old(self)@),
            final(self)@ == after_poll_canceled(old(self)@, register),
    {
        if self.recv_task.is_complete() {
            Poll::Ready(())
        } else {
            let prev: SendState = self.send_state;
            self.send_state = SendState::Init;
            self.registered = register;
            match prev {
                SendState::Cancel | SendState::Sent => Poll::Ready(()),
                _ => Poll::Pending,
            }
        }
    }

    /// Try once to receive, leaving a waker if there is one.
    ///
    /// The receiver cannot tell a channel whose sender waits for it to give up
    /// from a broken one.
    pub fn poll_recv_once(&mut self, waker: Option<W>) -> (r: Received<T>)
        requires
            !old(self)@.registered,
        ensures
            match attempt(old(self)@, waker is Some) {
                Attempt::Pending => r is Pending,
                Attempt::Again => r is Again,
                Attempt::Ready(res) => r == Received::Ready(res),
            },
            final(self)@ == after_attempt(old(self)@, waker),
    {
        match self.send_state {
            SendState::Init => {
                if let Some(waker) = waker {
                    if self.recv_task.poll(waker) {
                        Received::Again
                    } else {
                        Received::Pending
                    }
                } else {
                    Received::Pending
                }
            },
            SendState::Load => {
                if let Some(waker) = waker {
                    if !self.recv_task.poll(waker) {
                        return Received::Pending;
                    }
                } else if !self.recv_task.is_complete() {
                    // sender was interrupted while storing
                    return Received::Again;
                }
                match self.mark_canceled() {
                    SendState::Init | SendState::Load => match self.take() {
                        Some(value) => Received::Ready(Ok(value)),
                        None => Received::Ready(Err(Canceled)),
                    },
                    _ => Received::Ready(Err(Canceled)),
                }
            },
            SendState::Cancel | SendState::Sent => Received::Ready(Err(Canceled)),
        }
    }

    /// Receive, leaving a waker if there is one and the value has yet to come.
    ///
    /// Returns when the other end is not in the middle of something.
    pub fn poll_recv(&mut self, waker: Option<W>) -> (r: Poll<Result<T, Canceled>>)
        requires
            !old(self)@.registered,
            !(attempt(old(self)@, waker is Some) is Again),
        ensures
            match attempt(old(self)@, waker is Some) {
                Attempt::Ready(res) => r == Poll::Ready(res),
                _ => r is Pending,
            },
            final(self)@ == after_attempt(old(self)@, waker),
    {
        match self.poll_recv_once(waker) {
            Received::Pending => Poll::Pending,
            Received::Ready(result) => Poll::Ready(result),
            Received::Again => vstd::pervasive::unreached(),
        }
    }

    /// Receive, once the receiver was told that there is something to receive.
    pub fn recv(&mut self) -> (r: Result<T, Canceled>)
        requires
            !old(self)@.registered,
            old(self)@.recv is Idle,
            !(old(self)@.send is Init),
        ensures
            Attempt::Ready(r) == attempt(old(self)@, false),
            final(self)@ == after_attempt(old(self)@, None),
    {
        match self.try_recv() {
            Ok(Some(value)) => Ok(value),
            Ok(None) => vstd::pervasive::unreached(),
            Err(err) => Err(err),
        }
    }

    /// Check whether the receiver has given up, or was told of a value.
    pub fn recv_canceled(&self) -> (r: bool)
        ensures
            r == (self@.recv is Idle),
    {
        self.recv_task.is_complete()
    }

    /// Receive what is there.
    ///
    /// Returns when the sender is not in the middle of storing.
    pub fn try_recv(&mut self) -> (r: Result<Option<T>, Canceled>)
        requires
            !old(self)@.registered,
            !(attempt(old(self)@, false) is Again),
        ensures
            r == (match attempt(old(self)@, false) {
                Attempt::Ready(Ok(v)) => Ok::<Option<T>, Canceled>(Some(v)),
                Attempt::Ready(Err(err)) => Err::<Option<T>, Canceled>(err),
                _ => Ok::<Option<T>, Canceled>(None),
            }),
            final(self)@ == after_attempt(old(self)@, None),
    {
        match self.poll_recv(None) {
            Poll::Pending => Ok(None),
            Poll::Ready(Ok(value)) => Ok(Some(value)),
            Poll::Ready(Err(err)) => Err(err),
        }
    }

    /// The first half of sending: store the value.
    ///
    /// There must be nothing sent, and no mark left by a receiver.
    pub fn load(&mut self, value: T)
        requires
            old(self)@.send is Init,
            !old(self)@.registered,
        ensures
            final(self)@ == after_load(old(self)@, value),
    {
        self.send_state = SendState::Load;
        self.data = Some(value);
    }

    /// The second half of sending: tell the receiver.
    ///
    /// Returns the value if the receiver has given up before it took the value,
    /// and the waker of the receiver that is due.
    pub fn finish_send(&mut self) -> (r: (Result<(), Option<T>>, Option<W>))
        requires
            old(self)@.send is Load || old(self)@.send is Sent,
        ensures
            r.0 == (if old(self)@.recv is Idle {
                Err::<(), Option<T>>(old(self)@.data)
            } else {
                Ok::<(), Option<T>>(())
            }),
            r.1 == due(old(self)@.recv),
            final(self)@ == after_finish(old(self)@),
    {
        let (told, waker) = self.recv_task.complete();
        if told {
            (Ok(()), waker)
        } else {
            // receiver already canceled
            (Err(self.take()), waker)
        }
    }

    /// Send a value.
    ///
    /// Returns the value if the receiver has given up, and the waker of the
    /// receiver that is due.
    pub fn send(&mut self, value: T) -> (r: (Result<(), T>, Option<W>))
        requires
            old(self)@.send is Init,
            !old(self)@.registered,
        ensures
            r.0 == (if old(self)@.recv is Idle {
                Err::<(), T>(value)
            } else {
                Ok::<(), T>(())
            }),
            r.1 == due(old(self)@.recv),
            final(self)@ == after_finish(after_load(old(self)@, value)),
    {
        self.load(value);
        match self.finish_send() {
            (Ok(()), waker) => (Ok(()), waker),
            (Err(Some(back)), waker) => (Err(back), waker),
            (Err(None), _) => vstd::pervasive::unreached(),
        }
    }

    fn take(&mut self) -> (r: Option<T>)
        ensures
            r == old(self)@.data,
            final(self)@ == (Shot::<T, W> { data: None, ..old(self)@ }),
    {
        self.data.take()
    }
}

/// The end that sends.
#[derive(Debug, PartialEq, Eq)]
pub struct Sender {
    granted: (),
}

/// The end that receives.
#[derive(Debug, PartialEq, Eq)]
pub struct Receiver {
    granted: (),
}

/// Create a channel.
pub fn channel<T, W>() -> (r: (Inner<T, W>, Sender, Receiver))
    ensures
        r.0@ == (Shot::<T, W> {
            send: SendState::Init,
            registered: false,
            recv: NotifyState::Waiting,
            cancel: NotifyState::Waiting,
            data: None,
        }),
{
    (Inner::new(), Sender { granted: () }, Receiver { granted: () })
}

impl Sender {
    /// Start waiting for the receiver to give up.
    pub fn cancellation<T, W>(&mut self, inner: &mut Inner<T, W>) -> (r: SendCancelled)
        ensures
            final(inner)@ == (Shot::<T, W> { cancel: NotifyState::Waiting, ..old(inner)@ }),
    {
        inner.cancel = NotifyOnce::new();
        SendCancelled { granted: () }
    }

    /// Check whether the receiver has given up.
    pub fn is_canceled<T, W>(&self, inner: &Inner<T, W>) -> (r: bool)
        ensures
            r == (inner@.recv is Idle),
    {
        inner.recv_canceled()
    }

    /// Send a value, which uses up the sender.
    pub fn send<T, W>(self, inner: &mut Inner<T, W>, data: T) -> (r: (Result<(), T>, Option<W>))
        requires
            old(inner)@.send is Init,
            !old(inner)@.registered,
        ensures
            r.0 == (if old(inner)@.recv is Idle {
                Err::<(), T>(data)
            } else {
                Ok::<(), T>(())
            }),
            r.1 == due(old(inner)@.recv),
            final(inner)@ == after_finish(after_load(old(inner)@, data)),
    {
        let sent: (Result<(), T>, Option<W>) = inner.send(data);
        let _ = self.drop(inner);
        sent
    }

    /// Drop the sender. Returns the waker of the receiver that is due.
    pub fn drop<T, W>(self, inner: &mut Inner<T, W>) -> (r: Option<W>)
        requires
            !old(inner)@.registered,
        ensures
            r == (if old(inner)@.send is Init {
                due(old(inner)@.recv)
            } else {
                None
            }),
            final(inner)@ == after_cancel_send(old(inner)@),
    {
        inner.cancel_send()
    }
}

/// A sender's wait for the receiver to give up.
#[derive(Debug, PartialEq, Eq)]
pub struct SendCancelled {
    granted: (),
}

impl SendCancelled {
    /// Check whether the receiver has given up, leaving a waker if not.
    pub fn poll<T, W>(&mut self, inner: &mut Inner<T, W>, waker: W) -> (r: Poll<()>)
        requires
            old(inner)@.send is Init || old(inner)@.send is Cancel,
        ensures
            r is Ready <==> old(inner)@.cancel is Idle || sees_cancel(old(inner)@),
            final(inner)@ == (if old(inner)@.cancel is Idle {
                old(inner)@
            } else {
                after_poll_canceled(
                    Shot::<T, W> { cancel: NotifyState::Listening(waker), ..old(inner)@ },
                    true,
                )
            }),
    {
        if inner.cancel.poll(waker) {
            Poll::Ready(())
        } else {
            inner.poll_canceled(true)
        }
    }

    /// Stop waiting for the receiver to give up.
    pub fn drop<T, W>(self, inner: &mut Inner<T, W>)
        requires
            old(inner)@.send is Init || old(inner)@.send is Cancel,
        ensures
            final(inner)@ == after_poll_canceled(old(inner)@, false),
    {
        let _ = inner.poll_canceled(false);
    }
}

impl Receiver {
    /// Give up. Returns the value if it is there, and the waker of the sender
    /// that is due.
    pub fn cancel<T, W>(&mut self, inner: &mut Inner<T, W>) -> (r: (Option<T>, Option<W>))
        ensures
            r.0 == taken_by_cancel(old(inner)@),
            r.1 == due_on_cancel(old(inner)@),
            final(inner)@ == after_cancel_recv(old(inner)@),
    {
        inner.cancel_recv()
    }

    /// Receive, once told that there is something to receive.
    pub fn recv<T, W>(&mut self, inner: &mut Inner<T, W>) -> (r: Result<T, Canceled>)
        requires
            !old(inner)@.registered,
            old(inner)@.recv is Idle,
            !(old(inner)@.send is Init),
        ensures
            Attempt::Ready(r) == attempt(old(inner)@, false),
            final(inner)@ == after_attempt(old(inner)@, None),
    {
        inner.recv()
    }

    /// Receive what is there.
    pub fn try_recv<T, W>(&mut self, inner: &mut Inner<T, W>) -> (r: Result<Option<T>, Canceled>)
        requires
            !old(inner)@.registered,
            !(attempt(old(inner)@, false) is Again),
        ensures
            r == (match attempt(old(inner)@, false) {
                Attempt::Ready(Ok(v)) => Ok::<Option<T>, Canceled>(Some(v)),
                Attempt::Ready(Err(err)) => Err::<Option<T>, Canceled>(err),
                _ => Ok::<Option<T>, Canceled>(None),
            }),
            final(inner)@ == after_attempt(old(inner)@, None),
    {
        inner.try_recv()
    }

    /// Receive, leaving a waker if the value has yet to come.
    pub fn poll<T, W>(&mut self, inner: &mut Inner<T, W>, waker: W) -> (r: Poll<
        Result<T, Canceled>,
    >)
        requires
            !old(inner)@.registered,
            !(attempt(old(inner)@, true) is Again),
        ensures
            match attempt(old(inner)@, true) {
                Attempt::Ready(res) => r == Poll::Ready(res),
                _ => r is Pending,
            },
            final(inner)@ == after_attempt(old(inner)@, Some(waker)),
    {
        inner.poll_recv(Some(waker))
    }

    /// Drop the receiver. Returns the value if it is there, and the waker of
    /// the sender that is due.
    pub fn drop<T, W>(self, inner: &mut Inner<T, W>) -> (r: (Option<T>, Option<W>))
        ensures
            r.0 == taken_by_cancel(old(inner)@),
            r.1 == due_on_cancel(old(inner)@),
            final(inner)@ == after_cancel_recv(old(inner)@),
    {
        inner.cancel_recv()
    }
}

/// Nothing was sent and neither end has given up.
pub open spec fn open_shot<T, W>(s: Shot<T, W>) -> bool {
    s.send is Init && !s.registered && !(s.recv is Idle) && s.data is None
}

/// A value that was sent is received, once: the next attempt gets it, whether
/// or not the receiver waits, and every later one learns that there is nothing
/// more.
pub proof fn law_sent_value_is_received<T, W>(
    s: Shot<T, W>,
    value: T,
    first: Option<W>,
    later: Option<W>,
)
    requires
        open_shot(s),
    ensures
        ({
            let sent = after_finish(after_load(s, value));
            let received = after_attempt(sent, first);
            &&& attempt(sent, first is Some) == Attempt::Ready(Ok::<T, Canceled>(value))
            &&& attempt(received, later is Some) == Attempt::<T>::Ready(Err(Canceled))
            &&& after_attempt(received, later) == received
        }),
{
}

/// A receiver that waits is woken when the value is sent, and when the sender
/// is dropped.
pub proof fn law_waiting_receiver_is_woken<T, W>(s: Shot<T, W>, value: T, waker: W)
    requires
        open_shot(s),
    ensures
        attempt(s, true) is Pending,
        due(after_load(after_attempt(s, Some(waker)), value).recv) == Some(waker),
        due(after_attempt(s, Some(waker)).recv) == Some(waker),
{
}

/// A value that is sent to a receiver that has given up goes back to the
/// sender, and does not stay in the channel.
pub proof fn law_value_returns_to_sender<T, W>(s: Shot<T, W>, value: T)
    requires
        open_shot(s),
    ensures
        ({
            let gone = after_cancel_recv(s);
            &&& gone.send is Init
            &&& gone.recv is Idle
            &&& after_finish(after_load(gone, value)).data is None
        }),
{
}

/// When the sender is dropped without sending, receiving fails.
pub proof fn law_dropped_sender_cancels<T, W>(s: Shot<T, W>, waker: Option<W>)
    requires
        open_shot(s),
    ensures
        attempt(after_cancel_send(s), waker is Some) == Attempt::<T>::Ready(Err(Canceled)),
{
}

/// Dropping the sender after it has sent makes no difference.
pub proof fn law_drop_after_send<T, W>(s: Shot<T, W>, value: T)
    requires
        open_shot(s),
    ensures
        after_cancel_send(after_finish(after_load(s, value))) == after_finish(
            after_load(s, value),
        ),
{
}

/// Whatever the receiver does between the two halves of sending, the value ends
/// up with exactly one of the two: a receiver that gives up leaves it to the
/// sender, one that waits is woken and gets it.
pub proof fn law_interrupted_send<T, W>(s: Shot<T, W>, value: T, waker: W)
    requires
        open_shot(s),
    ensures
        ({
            let loaded = after_load(s, value);
            let gone = after_cancel_recv(loaded);
            let waiting = after_attempt(loaded, Some(waker));
            &&& taken_by_cancel(loaded) is None
            &&& gone.recv is Idle && gone.data == Some(value)
            &&& attempt(loaded, true) is Pending
            &&& attempt(loaded, false) is Again
            &&& due(waiting.recv) == Some(waker)
            &&& attempt(after_finish(waiting), true) == Attempt::Ready(Ok::<T, Canceled>(value))
        }),
{
}

/// No operation loses or doubles a value: one that leaves the channel is the
/// one that the operation hands out.
pub proof fn law_value_is_conserved<T, W>(s: Shot<T, W>, waker: Option<W>, register: bool)
    requires
        shot_inv(s),
    ensures
        shot_inv(after_cancel_recv(s)),
        shot_inv(after_cancel_send(s)),
        shot_inv(after_attempt(s, waker)),
        shot_inv(after_finish(s)),
        s.send is Init || s.send is Cancel ==> shot_inv(after_poll_canceled(s, register)),
        after_cancel_recv(s).data == (if taken_by_cancel(s) is Some {
            None
        } else {
            s.data
        }),
        taken_by_cancel(s) is Some ==> taken_by_cancel(s) == s.data,
        after_cancel_send(s).data == s.data,
        match attempt(s, waker is Some) {
            Attempt::Ready(Ok(v)) => s.data == Some(v) && after_attempt(s, waker).data is None,
            _ => after_attempt(s, waker).data == s.data,
        },
        after_finish(s).data == (if s.recv is Idle {
            None
        } else {
            s.data
        }),
{
}

/// A sender that waits for the receiver to give up is told when the receiver
/// gives up for the second time, which is when a receiver that was canceled is
/// dropped.
pub proof fn law_waiting_sender_is_told<T, W>(s: Shot<T, W>, waker: W)
    requires
        open_shot(s),
        s.cancel is Waiting,
    ensures
        ({
            let waiting = after_poll_canceled(
                Shot { cancel: NotifyState::Listening(waker), ..s },
                true,
            );
            let once = after_cancel_recv(waiting);
            &&& due_on_cancel(waiting) is None
            &&& sees_cancel(once)
            &&& due_on_cancel(once) == Some(waker)
            &&& after_cancel_recv(once).cancel is Idle
        }),
{
}

/// The sender sees that the receiver has given up if and only if it has, whatever the two
/// have asked for before.
pub proof fn law_sender_sees_the_end<T, W>(s: Shot<T, W>, waker: Option<W>, register: bool)
    requires
        open_shot(s),
    ensures
        ({
            let looked = after_poll_canceled(after_attempt(s, waker), register);
            let gone = after_cancel_recv(looked);
            &&& !sees_cancel(s)
            &&& !sees_cancel(looked)
            &&& looked.send is Init && looked.registered == register && looked.data is None
            &&& sees_cancel(gone)
            &&& sees_cancel(after_cancel_recv(gone))
            &&& sees_cancel(after_poll_canceled(gone, register))
            &&& !register ==> due_on_cancel(gone) is None && after_cancel_recv(gone).cancel
                == s.cancel
        }),
{
}

/// A receiver that finds nothing leaves nothing behind but its waker, if it has one. One
/// that has given up is not told to wait for what will not wake it.
pub proof fn law_nothing_is_sent_yet<T, W>(s: Shot<T, W>, waker: W)
    requires
        open_shot(s),
    ensures
        attempt(s, true) is Pending,
        attempt(s, false) is Pending,
        after_attempt(s, None) == s,
        after_attempt(s, Some(waker)) == (Shot { recv: NotifyState::Listening(waker), ..s }),
        attempt(after_cancel_recv(s), true) is Again,
        attempt(after_cancel_recv(s), false) is Pending,
{
}

} // verus!
