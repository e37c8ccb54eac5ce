//! A notification that is given once.
//!
//! Somebody waits, by leaving a waker, until somebody else completes the
//! notification. Waking is up to the caller: the operations hand out the waker
//! that is due.

use vstd::prelude::*;

use crate::exchange::exchange;

verus! {

/// The condition of a notification.
pub ghost enum NotifyState<W> {
    /// Not given yet, and nobody has left a waker.
    Waiting,
    /// Not given yet, and this waker is due when it is.
    Listening(W),
    /// Given, or no longer wanted.
    Idle,
}

/// The condition after a waker was left.
pub open spec fn after_poll<W>(s: NotifyState<W>, waker: W) -> NotifyState<W> {
    match s {
        NotifyState::Idle => NotifyState::Idle,
        _ => NotifyState::Listening(waker),
    }
}

/// The waker that is due when the notification is given.
pub open spec fn due<W>(s: NotifyState<W>) -> Option<W> {
    match s {
        NotifyState::Listening(w) => Some(w),
        _ => None,
    }
}

enum Slot<W> {
    Waiting,
    Listening(W),
    Idle,
}

/// A notification that is given once.
pub struct NotifyOnce<W> {
    slot: Slot<W>,
}

impl<W> View for NotifyOnce<W> {
    type V = NotifyState<W>;

    closed spec fn view(&self) -> NotifyState<W> {
        match self.slot {
            Slot::Waiting => NotifyState::Waiting,
            Slot::Listening(w) => NotifyState::Listening(w),
            Slot::Idle => NotifyState::Idle,
        }
    }
}

impl<W> NotifyOnce<W> {
    /// Create a notification that was not given yet.
    pub fn new() -> (r: Self)
        ensures
            r@ == NotifyState::<W>::Waiting,
    {
        NotifyOnce { slot: Slot::Waiting }
    }

    /// Stop waiting. Returns `false` if the notification was already given.
    pub fn cancel(&mut self) -> (r: bool)
        ensures
            r == !(old(self)@ is Idle),
            final(self)@ == NotifyState::<W>::Idle,
    {
        match exchange(&mut self.slot, Slot::Idle) {
            Slot::Idle => false,
            _ => true,
        }
    }

    /// Give the notification.
    ///
    /// Returns `false` if it was already given or is no longer wanted, and the
    /// waker that is due.
    pub fn complete(&mut self) -> (r: (bool, Option<W>))
        ensures
            r.0 == !(old(self)@ is Idle),
            r.1 == due(old(self)@),
            final(self)@ == NotifyState::<W>::Idle,
    {
        match exchange(&mut self.slot, Slot::Idle) {
            Slot::Idle => (false, None),
            Slot::Waiting => (true, None),
            Slot::Listening(waker) => (true, Some(waker)),
        }
    }

    /// Check whether there is nothing left to wait for.
    pub fn is_complete(&self) -> (r: bool)
        ensures
            r == (self@ is Idle),
    {
        match &self.slot {
            Slot::Idle => true,
            _ => false,
        }
    }

    /// Leave a waker, in place of an earlier one, unless there is nothing to
    /// wait for. Returns `true` in the latter case.
    pub fn poll(&mut self, waker: W) -> (r: bool)
        ensures
            r == (old(self)@ is Idle),
            final(self)@ == after_poll(old(self)@, waker),
    {
        if self.is_complete() {
            true
        } else {
            self.slot = Slot::Listening(waker);
            false
        }
    }
}

/// The waker that was left last is the one that is woken, and it is woken
/// once.
pub proof fn law_woken_once<W>(s: NotifyState<W>, first: W, second: W)
    requires
        !(s is Idle),
    ensures
        due(after_poll(after_poll(s, first), second)) == Some(second),
        due(NotifyState::<W>::Idle) is None,
        due(after_poll(NotifyState::<W>::Idle, first)) is None,
{
}

} // verus!
