//! Putting a thread to sleep without missing a notification.
//!
//! A thread announces that it is going to wait, looks for work, and then waits.
//! A notification that arrives anywhere in between keeps it from sleeping.
//! Parking and unparking are up to the caller.

use vstd::prelude::*;

verus! {

/// Where the waiting side is.
#[derive(Clone, Copy, Debug, PartialEq, Eq, Structural)]
pub enum ParkState {
    /// The wait was announced.
    Idle,
    /// There is something to do.
    Busy,
    /// The thread sleeps and has to be unparked.
    Wake,
}

/// What a thread does that waits up to a deadline.
#[derive(Clone, Copy, Debug, PartialEq, Eq, Structural)]
pub enum Deadline {
    /// It was notified.
    Notified,
    /// The deadline has passed.
    Expired,
    /// Park for at most this long.
    Park(u128),
}

/// The two sides, as far as either can tell.
pub ghost struct ParkView<H> {
    /// Where the waiting side is.
    pub state: ParkState,
    /// The thread that announced a wait last.
    pub thread: Option<H>,
}

/// What the two sides share.
pub struct Inner<H> {
    state: ParkState,
    thread: Option<H>,
}

impl<H> View for Inner<H> {
    type V = ParkView<H>;

    closed spec fn view(&self) -> ParkView<H> {
        ParkView { state: self.state, thread: self.thread }
    }
}

/// The state of a thread that was notified.
pub open spec fn after_wake<H>(s: ParkView<H>) -> ParkView<H> {
    ParkView {
        state: ParkState::Busy,
        thread: if s.state is Wake {
            None
        } else {
            s.thread
        },
    }
}

/// The state of a thread that starts to wait.
pub open spec fn after_start<H>(s: ParkView<H>) -> ParkView<H> {
    ParkView {
        state: if s.state is Idle {
            ParkState::Wake
        } else {
            s.state
        },
        ..s
    }
}

impl<H> Inner<H> {
    /// Create the state of a thread that is not waiting.
    pub fn new() -> (r: Self)
        ensures
            r@ == (ParkView::<H> { state: ParkState::Busy, thread: None }),
    {
        Inner { state: ParkState::Busy, thread: None }
    }

    /// Notify. Returns the thread that is to be unparked.
    pub fn wake(&mut self) -> (r: Option<H>)
        ensures
            r == (if old(self)@.state is Wake {
                old(self)@.thread
            } else {
                None
            }),
            final(self)@ == after_wake(old(self)@),
    {
        let prev: ParkState = self.state;
        self.state = ParkState::Busy;
        match prev {
            ParkState::Wake => self.thread.take(),
            _ => None,
        }
    }

    /// Announce a wait.
    pub fn prepare_wait(&mut self, thread: H)
        ensures
            final(self)@ == (ParkView::<H> { state: ParkState::Idle, thread: Some(thread) }),
    {
        self.state = ParkState::Idle;
        self.thread = Some(thread);
    }

    /// Start to wait. Returns `false` if there is no need to.
    pub fn start_wait(&mut self) -> (r: bool)
        ensures
            r == (old(self)@.state is Idle),
            final(self)@ == after_start(old(self)@),
    {
        match self.state {
            ParkState::Idle => {
                self.state = ParkState::Wake;
                true
            },
            _ => false,
        }
    }

    /// Check, after parking, whether the thread was notified.
    pub fn is_notified(&self) -> (r: bool)
        ensures
            r == (self@.state is Busy),
    {
        match self.state {
            ParkState::Busy => true,
            _ => false,
        }
    }

    /// Check, after parking, whether a wait up to a deadline is over.
    pub fn check_deadline(&self, parked: bool, now: u128, expire: u128) -> (r: Deadline)
        ensures
            r == (if parked && self@.state is Busy {
                Deadline::Notified
            } else if now <= expire {
                Deadline::Park((expire - now) as u128)
            } else {
                Deadline::Expired
            }),
    {
        if parked && self.is_notified() {
            Deadline::Notified
        } else if now <= expire {
            Deadline::Park(expire - now)
        } else {
            Deadline::Expired
        }
    }
}

/// The side that notifies.
#[derive(Debug, PartialEq, Eq)]
pub struct SharedWaker {
    granted: (),
}

/// The side that waits.
#[derive(Debug, PartialEq, Eq)]
pub struct SharedWaiter {
    granted: (),
}

/// Create the two sides.
pub fn shared_waker<H>() -> (r: (Inner<H>, SharedWaker, SharedWaiter))
    ensures
        r.0@ == (ParkView::<H> { state: ParkState::Busy, thread: None }),
{
    (Inner::new(), SharedWaker { granted: () }, SharedWaiter { granted: () })
}

/// Create the two sides, of which the first can be cloned.
pub fn pair<H>() -> (r: (Inner<H>, Waker, Waiter))
    ensures
        r.0@ == (ParkView::<H> { state: ParkState::Busy, thread: None }),
{
    (Inner::new(), Waker { granted: () }, Waiter { granted: () })
}

impl SharedWaker {
    /// Notify. Returns the thread that is to be unparked.
    pub fn wake<H>(&self, inner: &mut Inner<H>) -> (r: Option<H>)
        ensures
            r == (if old(inner)@.state is Wake {
                old(inner)@.thread
            } else {
                None
            }),
            final(inner)@ == after_wake(old(inner)@),
    {
        inner.wake()
    }
}

impl SharedWaiter {
    /// Announce a wait.
    pub fn prepare_wait<H>(&self, inner: &mut Inner<H>, thread: H)
        ensures
            final(inner)@ == (ParkView::<H> { state: ParkState::Idle, thread: Some(thread) }),
    {
        inner.prepare_wait(thread)
    }

    /// Start to wait. Returns `false` if there is no need to; otherwise the
    /// thread parks until it was notified.
    pub fn wait<H>(&self, inner: &mut Inner<H>) -> (r: bool)
        ensures
            r == (old(inner)@.state is Idle),
            final(inner)@ == after_start(old(inner)@),
    {
        inner.start_wait()
    }

    /// Start to wait up to a deadline, at a given time.
    pub fn wait_until<H>(&self, inner: &mut Inner<H>, now: u128, expire: u128) -> (r: Deadline)
        ensures
            r == (if !(old(inner)@.state is Idle) {
                Deadline::Notified
            } else if now <= expire {
                Deadline::Park((expire - now) as u128)
            } else {
                Deadline::Expired
            }),
            final(inner)@ == after_start(old(inner)@),
    {
        if !inner.start_wait() {
            Deadline::Notified
        } else {
            inner.check_deadline(false, now, expire)
        }
    }
}

/// The side that notifies.
#[derive(Debug, PartialEq, Eq)]
pub struct Waker {
    granted: (),
}

/// The side that waits.
#[derive(Debug, PartialEq, Eq)]
pub struct Waiter {
    granted: (),
}

impl Clone for Waker {
    fn clone(&self) -> (r: Self) {
        Waker { granted: () }
    }
}

impl Waker {
    /// Notify. Returns the thread that is to be unparked.
    pub fn wake<H>(&self, inner: &mut Inner<H>) -> (r: Option<H>)
        ensures
            r == (if old(inner)@.state is Wake {
                old(inner)@.thread
            } else {
                None
            }),
            final(inner)@ == after_wake(old(inner)@),
    {
        inner.wake()
    }
}

impl Waiter {
    /// Announce a wait.
    pub fn prepare_wait<H>(&self, inner: &mut Inner<H>, thread: H)
        ensures
            final(inner)@ == (ParkView::<H> { state: ParkState::Idle, thread: Some(thread) }),
    {
        inner.prepare_wait(thread)
    }

    /// Start to wait. Returns `false` if there is no need to; otherwise the
    /// thread parks until it was notified.
    pub fn wait<H>(&self, inner: &mut Inner<H>) -> (r: bool)
        ensures
            r == (old(inner)@.state is Idle),
            final(inner)@ == after_start(old(inner)@),
    {
        inner.start_wait()
    }

    /// Start to wait up to a deadline, at a given time.
    pub fn wait_until<H>(&self, inner: &mut Inner<H>, now: u128, expire: u128) -> (r: Deadline)
        ensures
            r == (if !(old(inner)@.state is Idle) {
                Deadline::Notified
            } else if now <= expire {
                Deadline::Park((expire - now) as u128)
            } else {
                Deadline::Expired
            }),
            final(inner)@ == after_start(old(inner)@),
    {
        if !inner.start_wait() {
            Deadline::Notified
        } else {
            inner.check_deadline(false, now, expire)
        }
    }
}

/// No notification is missed: one that comes after the announcement and before
/// the wait keeps the thread from sleeping, and one that comes later finds the
/// thread to be unparked and ends the wait.
pub proof fn law_no_missed_notification<H>(thread: H)
    ensures
        ({
            let announced = ParkView { state: ParkState::Idle, thread: Some(thread) };
            let asleep = after_start(announced);
            &&& !(after_wake(announced).state is Idle)
            &&& asleep.state is Wake && asleep.thread == Some(thread)
            &&& after_wake(announced).state is Busy
            &&& after_start(after_wake(announced)).state is Busy
            &&& after_wake(asleep).state is Busy
            &&& after_wake(asleep).thread is None
            &&& after_start(asleep) == asleep
        }),
{
}

/// A thread is unparked once, however often it is notified.
pub proof fn law_unparked_once<H>(s: ParkView<H>)
    ensures
        !(after_wake(s).state is Wake),
        after_wake(after_wake(s)) == after_wake(s),
{
}

} // verus!
