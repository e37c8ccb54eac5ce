//! Waking a thread that has parked itself.
//!
//! Parking and unparking are up to the caller.

use vstd::prelude::*;

verus! {

/// What a thread does that waits for a limited time.
#[derive(Clone, Copy, Debug, PartialEq, Eq, Structural)]
pub enum TimedWait {
    /// It was woken.
    Woken,
    /// The time is over.
    TimedOut,
    /// Park for at most this long.
    Park(u128),
}

/// What a thread and those who wake it share.
#[derive(Debug, PartialEq, Eq)]
pub struct Inner {
    woken: bool,
}

impl View for Inner {
    type V = bool;

    /// Whether the thread was woken since it last waited.
    closed spec fn view(&self) -> bool {
        self.woken
    }
}

/// The side that waits.
#[derive(Debug, PartialEq, Eq)]
pub struct ThreadWaiter {
    granted: (),
}

/// The side that wakes.
#[derive(Debug, PartialEq, Eq)]
pub struct ThreadWaker {
    granted: (),
}

/// Create the two sides for the current thread.
pub fn thread_waker() -> (r: (Inner, ThreadWaiter, ThreadWaker))
    ensures
        !r.0@,
{
    (Inner { woken: false }, ThreadWaiter { granted: () }, ThreadWaker { granted: () })
}

impl Inner {
    /// Wake the thread. Returns whether it is to be unparked: waking it again
    /// before it has noticed has no effect.
    pub fn wake_by_ref(&mut self) -> (r: bool)
        ensures
            r == !old(self)@,
            final(self)@,
    {
        let first: bool = !self.woken;
        self.woken = true;
        first
    }
}

impl ThreadWaiter {
    /// Check whether the wait is over, which makes ready for the next one;
    /// otherwise the thread is to park.
    pub fn wait(&self, inner: &mut Inner) -> (r: bool)
        ensures
            r == old(inner)@,
            !final(inner)@,
    {
        if !inner.woken {
            false
        } else {
            // reset for next wait
            inner.woken = false;
            true
        }
    }

    /// Check, after parking, whether a wait that ends at a given time is over.
    pub fn wait_timeout(&self, inner: &mut Inner, now: u128, end: u128) -> (r: TimedWait)
        ensures
            r == (if old(inner)@ {
                TimedWait::Woken
            } else if now >= end {
                TimedWait::TimedOut
            } else {
                TimedWait::Park((end - now) as u128)
            }),
            !final(inner)@,
    {
        if inner.woken {
            // reset for next wait
            inner.woken = false;
            TimedWait::Woken
        } else if now >= end {
            TimedWait::TimedOut
        } else {
            TimedWait::Park(end - now)
        }
    }
}

impl ThreadWaker {
    /// Wake the thread. Returns whether it is to be unparked.
    pub fn wake(&self, inner: &mut Inner) -> (r: bool)
        ensures
            r == !old(inner)@,
            final(inner)@,
    {
        inner.wake_by_ref()
    }
}

} // verus!
