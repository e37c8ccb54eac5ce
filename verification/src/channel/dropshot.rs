//! A channel for a single value that does not tell its sender when the receiver
//! gives up.
//!
//! It could be used to confirm delivery of a message and to pull the message
//! back out on failure. The receiver leaves its waker under a lock; the sender
//! takes the waker from there once the value is ready.

use vstd::prelude::*;

use crate::option_lock::{stored, LockState, OptionGuard, OptionLock};
use crate::poll::Poll;

verus! {

/// The value did not and will not arrive.
#[derive(Clone, Copy, Debug, PartialEq, Eq, Structural)]
pub struct Canceled;

impl Canceled {
    /// A description.
    pub fn message(&self) -> (r: String)
        ensures
            r@ == "dropshot canceled"@,
    {
        "dropshot canceled".to_owned()
    }
}

/// How far a channel has come.
#[derive(Clone, Copy, Debug, PartialEq, Eq, Structural)]
pub enum State {
    /// Nothing was sent.
    Init,
    /// The value is being stored.
    Load,
    /// The value is there.
    Ready,
    /// The value has left.
    Sent,
    /// One of the ends has given up.
    Cancel,
}

/// How often a blocking receive asks before it waits.
pub const SPINS: usize = 20;

/// The longest wait, in milliseconds, that is not taken for a failure.
pub const MAX_WAIT_MILLIS: u64 = 100;

/// A channel, as far as its ends can tell.
pub ghost struct Shot<T, W> {
    /// How far the channel has come.
    pub state: State,
    /// The lock under which the receiver leaves its waker.
    pub waker: LockState<W>,
    /// The value, while it is in the channel.
    pub data: Option<T>,
}

/// The value is in the channel between being stored and leaving it; the
/// channel may be canceled in between.
pub open spec fn shot_inv<T, W>(s: Shot<T, W>) -> bool {
    &&& s.state is Ready ==> s.data is Some
    &&& s.state is Init || s.state is Sent ==> s.data is None
    &&& !(s.waker is ReadLock)
}

/// The channel after the receiver gave up.
pub open spec fn after_cancel_recv<T, W>(s: Shot<T, W>) -> Shot<T, W> {
    Shot {
        state: State::Cancel,
        data: if s.state is Ready {
            None
        } else {
            s.data
        },
        ..s
    }
}

/// The waker that somebody who asks for it gets.
pub open spec fn due<W>(waker: LockState<W>) -> Option<W> {
    match waker {
        LockState::Available(w) => Some(w),
        _ => None,
    }
}

/// The lock after somebody asked for the waker.
pub open spec fn after_wake<W>(waker: LockState<W>) -> LockState<W> {
    crate::option_lock::step(waker, crate::option_lock::LockOp::Take)
}

/// The channel after the sender was dropped.
pub open spec fn after_cancel_send<T, W>(s: Shot<T, W>) -> Shot<T, W> {
    if s.state is Init {
        Shot { state: State::Cancel, waker: after_wake(s.waker), ..s }
    } else {
        s
    }
}

/// What receiving finds.
pub open spec fn receivable<T, W>(s: Shot<T, W>) -> Result<Option<T>, Canceled> {
    match s.state {
        State::Init => Ok(None),
        State::Ready => Ok(s.data),
        _ => Err(Canceled),
    }
}

/// The channel after receiving.
pub open spec fn after_recv<T, W>(s: Shot<T, W>) -> Shot<T, W> {
    if s.state is Ready {
        Shot { state: State::Sent, data: None, ..s }
    } else {
        s
    }
}

/// The channel after the value was stored, before it was declared ready.
pub open spec fn after_load<T, W>(s: Shot<T, W>, value: T) -> Shot<T, W> {
    Shot { state: State::Load, data: Some(value), ..s }
}

/// The channel after the value was declared ready, or taken back from a
/// receiver that has given up.
pub open spec fn after_finish<T, W>(s: Shot<T, W>) -> Shot<T, W> {
    if s.state is Load {
        Shot { state: State::Ready, waker: after_wake(s.waker), ..s }
    } else {
        Shot { data: None, ..s }
    }
}

/// The channel after sending.
pub open spec fn after_send<T, W>(s: Shot<T, W>, value: T) -> Shot<T, W> {
    if s.state is Init {
        after_finish(after_load(s, value))
    } else {
        s
    }
}

/// What the receiver learns once it has left its waker.
#[derive(Clone, Copy, Debug, PartialEq, Eq, Structural)]
pub enum Recheck {
    /// Nothing was sent; the waker will be used.
    Pending,
    /// The sender is gone.
    Canceled,
    /// The sender is in the middle of sending, or has sent meanwhile.
    Again,
}

/// What the receiver learns in a state once it has left its waker.
pub open spec fn recheck(state: State) -> Recheck {
    match state {
        State::Init => Recheck::Pending,
        State::Cancel => Recheck::Canceled,
        _ => Recheck::Again,
    }
}

/// The state that the two ends share.
pub struct Inner<T, W> {
    data: Option<T>,
    recv_waker: OptionLock<W>,
    state: State,
}

impl<T, W> View for Inner<T, W> {
    type V = Shot<T, W>;

    closed spec fn view(&self) -> Shot<T, W> {
        Shot { state: self.state, waker: self.recv_waker@, data: self.data }
    }
}

impl<T, W> Inner<T, W> {
    /// Create the state of a channel through which nothing was sent.
    pub fn new() -> (r: Self)
        ensures
            r@ == (Shot::<T, W> { state: State::Init, waker: LockState::Empty, data: None }),
            shot_inv(r@),
    {
        Inner { data: None, recv_waker: OptionLock::new(), state: State::Init }
    }

    /// Take the waker, if there is one and the receiver is not busy leaving it.
    fn take_waker(&mut self) -> (r: Option<W>)
        ensures
            r == due(old(self)@.waker),
            final(self)@ == (Shot::<T, W> { waker: after_wake(old(self)@.waker), ..old(self)@ }),
    {
        match self.recv_waker.try_take() {
            Ok(waker) => Some(waker),
            Err(_) => None,
        }
    }

    /// The receiver gives up. Returns the value if it is there.
    pub fn cancel_recv(&mut self) -> (r: Option<T>)
        ensures
            r == (if old(self)@.state is Ready {
                old(self)@.data
            } else {
                None
            }),
            final(self)@ == after_cancel_recv(old(self)@),
    {
        let prev: State = self.state;
        self.state = State::Cancel;
        match prev {
            State::Ready => self.take(),
            _ => None,
        }
    }

    /// The sender is dropped. Returns the waker that is due.
    pub fn cancel_send(&mut self) -> (r: Option<W>)
        ensures
            r == (if old(self)@.state is Init {
                due(old(self)@.waker)
            } else {
                None
            }),
            final(self)@ == after_cancel_send(old(self)@),
    {
        match self.state {
            State::Init => {
                self.state = State::Cancel;
                self.take_waker()
            },
            _ => None,
        }
    }

    /// Receive what is there.
    ///
    /// Returns when the sender is not in the middle of storing.
    pub fn try_recv(&mut self) -> (r: Result<Option<T>, Canceled>)
        requires
            !(old(self)@.state is Load),
        ensures
            r == receivable(old(self)@),
            final(self)@ == after_recv(old(self)@),
    {
        match self.state {
            State::Ready => {
                self.state = State::Sent;
                Ok(self.take())
            },
            State::Init => Ok(None),
            State::Cancel | State::Sent => Err(Canceled),
            State::Load => vstd::pervasive::unreached(),
        }
    }

    /// Start to leave a waker; there is no other one who does.
    pub fn lock_waker(&mut self) -> (r: Option<OptionGuard<W>>)
        ensures
            r is Some <==> crate::option_lock::lockable(old(self)@.waker),
            r is Some ==> r->0@ == stored(old(self)@.waker),
            final(self)@ == (Shot::<T, W> {
                waker: crate::option_lock::step(
                    old(self)@.waker,
                    crate::option_lock::LockOp::Lock,
                ),
                ..old(self)@
            }),
    {
        match self.recv_waker.try_lock() {
            Ok(guard) => Some(guard),
            Err(_) => None,
        }
    }

    /// Leave a waker, and check the state again in case the sender failed to
    /// get a lock on the waker meanwhile.
    pub fn store_waker(&mut self, guard: OptionGuard<W>, waker: W) -> (r: Recheck)
        requires
            old(self)@.waker is ExclusiveLock,
        ensures
            r == recheck(old(self)@.state),
            final(self)@ == (Shot::<T, W> { waker: LockState::Available(waker), ..old(self)@ }),
    {
        let mut guard: OptionGuard<W> = guard;
        let _ = guard.replace(waker);
        self.recv_waker.unlock(guard);
        match self.state {
            State::Init => Recheck::Pending,
            State::Cancel => Recheck::Canceled,
            _ => Recheck::Again,
        }
    }

    /// Receive, leaving a waker if the value has yet to come.
    ///
    /// Returns when the sender is not in the middle of something.
    pub fn poll_recv(&mut self, waker: W) -> (r: Poll<Result<T, Canceled>>)
        requires
            shot_inv(old(self)@),
            !(old(self)@.state is Load),
            old(self)@.state is Init ==> !(old(self)@.waker is ExclusiveLock),
        ensures
            match receivable(old(self)@) {
                Ok(Some(v)) => r == Poll::Ready(Ok::<T, Canceled>(v)) && final(self)@
                    == after_recv(old(self)@),
                Ok(None) => r is Pending && final(self)@ == (Shot::<T, W> {
                    waker: LockState::Available(waker),
                    ..old(self)@
                }),
                Err(err) => r == Poll::Ready(Err::<T, Canceled>(err)) && final(self)@
                    == old(self)@,
            },
    {
        match self.try_recv() {
            Ok(Some(value)) => Poll::Ready(Ok(value)),
            Ok(None) => match self.lock_waker() {
                Some(guard) => match self.store_waker(guard, waker) {
                    Recheck::Pending => Poll::Pending,
                    Recheck::Canceled => Poll::Ready(Err(Canceled)),
                    Recheck::Again => vstd::pervasive::unreached(),
                },
                None => vstd::pervasive::unreached(),
            },
            Err(err) => Poll::Ready(Err(err)),
        }
    }

    /// The first half of sending: store the value.
    ///
    /// Returns the value if the receiver has given up, or something was sent
    /// before.
    pub fn load(&mut self, value: T) -> (r: Option<T>)
        ensures
            if old(self)@.state is Init {
                r is None && final(self)@ == after_load(old(self)@, value)
            } else {
                r == Some(value) && final(self)@ == old(self)@
            },
    {
        match self.state {
            State::Init => {
                self.state = State::Load;
                self.data = Some(value);
                None
            },
            _ => Some(value),
        }
    }

    /// The second half of sending: declare the value ready.
    ///
    /// Returns the value if the receiver has given up meanwhile, and the waker
    /// that is due.
    pub fn finish_send(&mut self) -> (r: (Option<T>, Option<W>))
        requires
            old(self)@.state is Load || old(self)@.state is Cancel,
        ensures
            r.0 == (if old(self)@.state is Load {
                None
            } else {
                old(self)@.data
            }),
            r.1 == (if old(self)@.state is Load {
                due(old(self)@.waker)
            } else {
                None
            }),
            final(self)@ == after_finish(old(self)@),
    {
        match self.state {
            State::Load => {
                self.state = State::Ready;
                (None, self.take_waker())
            },
            // receiver dropped mid-send
            _ => (self.take(), None),
        }
    }

    /// Send a value.
    ///
    /// Returns the value if the receiver has given up or something was sent
    /// before, and the waker that is due.
    pub fn send(&mut self, value: T) -> (r: (Option<T>, Option<W>))
        ensures
            r.0 == (if old(self)@.state is Init {
                None
            } else {
                Some(value)
            }),
            r.1 == (if old(self)@.state is Init {
                due(old(self)@.waker)
            } else {
                None
            }),
            final(self)@ == after_send(old(self)@, value),
    {
        match self.load(value) {
            Some(value) => (Some(value), None),
            None => self.finish_send(),
        }
    }

    fn take(&mut self) -> (r: Option<T>)
        ensures
            r == old(self)@.data,
            final(self)@ == (Shot::<T, W> { data: None, ..old(self)@ }),
    {
        self.data.take()
    }

    /// The state, and whether there was a waker, which is removed.
    pub fn state(&mut self) -> (r: (State, bool))
        ensures
            r.0 == old(self)@.state,
            r.1 == (due(old(self)@.waker) is Some),
            final(self)@ == (Shot::<T, W> { waker: after_wake(old(self)@.waker), ..old(self)@ }),
    {
        let waker: Option<W> = self.take_waker();
        (self.state, waker.is_some())
    }
}

/// The end that receives.
#[derive(Debug, PartialEq, Eq)]
pub struct Receiver {
    granted: (),
}

/// The end that sends.
#[derive(Debug, PartialEq, Eq)]
pub struct Sender {
    granted: (),
}

/// Create a channel.
pub fn channel<T, W>() -> (r: (Inner<T, W>, Sender, Receiver))
    ensures
        r.0@ == (Shot::<T, W> { state: State::Init, waker: LockState::Empty, data: None }),
        shot_inv(r.0@),
{
    (Inner::new(), Sender { granted: () }, Receiver { granted: () })
}

/// What a blocking receive does next.
pub enum RecvStep<T> {
    /// It is over.
    Done(Result<T, Canceled>),
    /// Let others run, and try again.
    Yield,
    /// Wait to be woken.
    Park,
}

impl Receiver {
    /// Give up. Returns the value if it is there.
    pub fn close<T, W>(&mut self, inner: &mut Inner<T, W>) -> (r: Option<T>)
        ensures
            r == (if old(inner)@.state is Ready {
                old(inner)@.data
            } else {
                None
            }),
            final(inner)@ == after_cancel_recv(old(inner)@),
    {
        inner.cancel_recv()
    }

    /// One round of a blocking receive, with the number of rounds before it.
    ///
    /// The first rounds only ask; later ones leave a waker.
    pub fn recv<T, W>(&mut self, inner: &mut Inner<T, W>, round: usize, waker: W) -> (r: RecvStep<
        T,
    >)
        requires
            shot_inv(old(inner)@),
            !(old(inner)@.state is Load),
            old(inner)@.state is Init ==> !(old(inner)@.waker is ExclusiveLock),
        ensures
            match receivable(old(inner)@) {
                Ok(Some(v)) => r == RecvStep::Done(Ok::<T, Canceled>(v)) && final(inner)@
                    == after_recv(old(inner)@),
                Err(err) => r == RecvStep::Done(Err::<T, Canceled>(err)) && final(inner)@
                    == old(inner)@,
                Ok(None) => if round < SPINS {
                    r is Yield && final(inner)@ == old(inner)@
                } else {
                    r is Park && final(inner)@ == (Shot::<T, W> {
                        waker: LockState::Available(waker),
                        ..old(inner)@
                    })
                },
            },
    {
        if round < SPINS {
            match inner.try_recv() {
                Ok(Some(value)) => RecvStep::Done(Ok(value)),
                Ok(None) => RecvStep::Yield,
                Err(err) => RecvStep::Done(Err(err)),
            }
        } else {
            match inner.poll_recv(waker) {
                Poll::Ready(result) => RecvStep::Done(result),
                Poll::Pending => RecvStep::Park,
            }
        }
    }

    /// What a blocking receive makes of the time it has waited: a long wait is
    /// taken for the loss of the sender.
    pub fn waited(&mut self, millis: u64) -> (r: Result<(), Canceled>)
        ensures
            r is Err <==> millis > MAX_WAIT_MILLIS,
    {
        if millis > MAX_WAIT_MILLIS {
            Err(Canceled)
        } else {
            Ok(())
        }
    }

    /// Receive what is there.
    pub fn try_recv<T, W>(&mut self, inner: &mut Inner<T, W>) -> (r: Result<Option<T>, Canceled>)
        requires
            !(old(inner)@.state is Load),
        ensures
            r == receivable(old(inner)@),
            final(inner)@ == after_recv(old(inner)@),
    {
        inner.try_recv()
    }

    /// Receive, leaving a waker if the value has yet to come.
    pub fn poll<T, W>(&mut self, inner: &mut Inner<T, W>, waker: W) -> (r: Poll<
        Result<T, Canceled>,
    >)
        requires
            shot_inv(old(inner)@),
            !(old(inner)@.state is Load),
            old(inner)@.state is Init ==> !(old(inner)@.waker is ExclusiveLock),
        ensures
            match receivable(old(inner)@) {
                Ok(Some(v)) => r == Poll::Ready(Ok::<T, Canceled>(v)) && final(inner)@
                    == after_recv(old(inner)@),
                Ok(None) => r is Pending && final(inner)@ == (Shot::<T, W> {
                    waker: LockState::Available(waker),
                    ..old(inner)@
                }),
                Err(err) => r == Poll::Ready(Err::<T, Canceled>(err)) && final(inner)@
                    == old(inner)@,
            },
    {
        inner.poll_recv(waker)
    }

    /// Drop the receiver. Returns the value if it is there.
    pub fn drop<T, W>(self, inner: &mut Inner<T, W>) -> (r: Option<T>)
        ensures
            r == (if old(inner)@.state is Ready {
                old(inner)@.data
            } else {
                None
            }),
            final(inner)@ == after_cancel_recv(old(inner)@),
    {
        inner.cancel_recv()
    }
}

impl Sender {
    /// Send a value.
    ///
    /// Returns the value if the receiver has given up or something was sent
    /// before, and the waker that is due.
    pub fn send<T, W>(&self, inner: &mut Inner<T, W>, data: T) -> (r: (Option<T>, Option<W>))
        ensures
            r.0 == (if old(inner)@.state is Init {
                None
            } else {
                Some(data)
            }),
            r.1 == (if old(inner)@.state is Init {
                due(old(inner)@.waker)
            } else {
                None
            }),
            final(inner)@ == after_send(old(inner)@, data),
    {
        inner.send(data)
    }

    /// Drop the sender. Returns the waker that is due.
    pub fn drop<T, W>(self, inner: &mut Inner<T, W>) -> (r: Option<W>)
        ensures
            r == (if old(inner)@.state is Init {
                due(old(inner)@.waker)
            } else {
                None
            }),
            final(inner)@ == after_cancel_send(old(inner)@),
    {
        inner.cancel_send()
    }
}

/// A value that was sent is received, once.
pub proof fn law_sent_value_is_received<T, W>(s: Shot<T, W>, value: T)
    requires
        s.state is Init,
    ensures
        receivable(after_send(s, value)) == Ok::<Option<T>, Canceled>(Some(value)),
        receivable(after_recv(after_send(s, value))) == Err::<Option<T>, Canceled>(Canceled),
        after_recv(after_recv(after_send(s, value))) == after_recv(after_send(s, value)),
{
}

/// A second value is refused and does not disturb the first one.
pub proof fn law_second_value_is_refused<T, W>(s: Shot<T, W>, first: T, second: T)
    requires
        s.state is Init,
    ensures
        !(after_send(s, first).state is Init),
        after_send(after_send(s, first), second) == after_send(s, first),
{
}

/// When the sender is dropped without sending, receiving fails; after sending
/// it makes no difference.
pub proof fn law_dropped_sender<T, W>(s: Shot<T, W>, value: T)
    requires
        s.state is Init,
    ensures
        receivable(after_cancel_send(s)) == Err::<Option<T>, Canceled>(Canceled),
        after_cancel_send(after_send(s, value)) == after_send(s, value),
{
}

/// Nothing can be sent to a receiver that has given up.
pub proof fn law_dropped_receiver<T, W>(s: Shot<T, W>, value: T)
    ensures
        after_send(after_cancel_recv(s), value) == after_cancel_recv(s),
        receivable(after_cancel_recv(s)) == Err::<Option<T>, Canceled>(Canceled),
{
}

/// A receiver that gives up between the two halves of sending leaves the value
/// to the sender.
pub proof fn law_interrupted_send<T, W>(s: Shot<T, W>, value: T)
    requires
        s.state is Init,
    ensures
        ({
            let gone = after_cancel_recv(after_load(s, value));
            &&& gone.state is Cancel
            &&& gone.data == Some(value)
            &&& after_finish(gone).data is None
        }),
{
}

/// No waker is lost: if the receiver is told to wait after it left its waker,
/// then the sender, whatever it does, finds the waker; and if the sender came
/// first and could not have the waker, the receiver is not told to wait.
pub proof fn law_no_lost_wakeup<T, W>(s: Shot<T, W>, waker: W, value: T)
    requires
        s.state is Init,
        crate::option_lock::lockable(s.waker),
    ensures
        ({
            let locked = Shot { waker: LockState::ExclusiveLock, ..s };
            let waiting = Shot { waker: LockState::Available(waker), ..s };
            &&& recheck(waiting.state) is Pending
            &&& due(waiting.waker) == Some(waker)
            &&& recheck(after_load(locked, value).state) is Again
            &&& recheck(after_send(locked, value).state) is Again
            &&& recheck(after_cancel_send(locked).state) is Canceled
        }),
{
}

/// The value is where the state says it is, whatever the two ends do.
pub proof fn law_invariant_kept<T, W>(s: Shot<T, W>, value: T)
    requires
        shot_inv(s),
    ensures
        shot_inv(after_cancel_recv(s)),
        shot_inv(after_cancel_send(s)),
        shot_inv(after_recv(s)),
        s.state is Init ==> shot_inv(after_load(s, value)),
        s.state is Load && s.data is Some ==> shot_inv(after_finish(s)),
        s.state is Cancel ==> shot_inv(after_finish(s)),
        shot_inv(after_send(s, value)),
{
}

/// A receiver that comes before the value finds nothing and changes nothing. Its waker is
/// used once, by whatever ends the wait. A value that nobody wants any more does not stay.
pub proof fn law_waits_for_the_value<T, W>(s: Shot<T, W>, waker: W, value: T)
    requires
        s.state is Init,
        s.data is None,
        s.waker == LockState::Available(waker),
    ensures
        receivable(s) == Ok::<Option<T>, Canceled>(None),
        after_recv(s) == s,
        due(s.waker) == Some(waker),
        after_load(s, value).waker == s.waker,
        after_send(s, value).waker is Empty,
        after_cancel_send(s).waker is Empty,
        receivable(after_load(s, value)) == Err::<Option<T>, Canceled>(Canceled),
        after_recv(after_load(s, value)) == after_load(s, value),
        after_cancel_recv(after_send(s, value)).data is None,
        after_recv(after_send(s, value)).data is None,
{
}

} // verus!
