//! A waker that unparks the thread that was registered last.

use vstd::prelude::*;

use crate::option_lock::{LockOp, LockState, OptionGuard, OptionLock};

verus! {

broadcast use OptionLock::lemma_holding;

/// The place where a thread is registered.
pub struct UnparkWakerInner<H> {
    lock: OptionLock<H>,
}

impl<H> View for UnparkWakerInner<H> {
    type V = LockState<H>;

    closed spec fn view(&self) -> LockState<H> {
        self.lock@
    }
}

/// The place after a thread was registered.
pub open spec fn after_register<H>(s: LockState<H>, thread: H) -> LockState<H> {
    if crate::option_lock::lockable(s) {
        LockState::Available(thread)
    } else {
        s
    }
}

impl<H> UnparkWakerInner<H> {
    /// Create a place with a thread, or none.
    pub fn new(thread: Option<H>) -> (r: Self)
        ensures
            r@ == crate::option_lock::idle(thread),
    {
        UnparkWakerInner { lock: OptionLock::from(thread) }
    }

    /// Register a thread.
    ///
    /// Returns the thread, to be unparked at once, if somebody is in the middle
    /// of waking.
    pub fn register(&mut self, thread: H) -> (r: Option<H>)
        ensures
            r == (if crate::option_lock::lockable(old(self)@) {
                None
            } else {
                Some(thread)
            }),
            final(self)@ == after_register(old(self)@, thread),
    {
        match self.lock.try_lock() {
            Ok(locked) => {
                let mut guard: OptionGuard<H> = locked;
                let _ = guard.replace(thread);
                self.lock.unlock(guard);
                None
            },
            // another thread is calling the waker, just unpark the thread
            Err(_) => Some(thread),
        }
    }

    /// Forget the registered thread.
    pub fn cancel(&mut self)
        ensures
            final(self)@ == crate::option_lock::step(old(self)@, LockOp::Take),
    {
        // ignore if the waker was already being called
        let _ = self.lock.try_take();
    }

    /// Wake. Returns the thread that is to be unparked.
    pub fn wake_by_ref(&mut self) -> (r: Option<H>)
        ensures
            r == (match old(self)@ {
                LockState::Available(thread) => Some(thread),
                _ => None,
            }),
            final(self)@ == crate::option_lock::step(old(self)@, LockOp::Take),
    {
        match self.lock.try_take() {
            Ok(thread) => Some(thread),
            Err(_) => None,
        }
    }
}

/// The thread that was registered last is the one that is unparked, once. A thread that is
/// registered while somebody wakes does not disturb them.
pub proof fn law_last_registered_is_unparked<H>(s: LockState<H>, first: H, second: H)
    ensures
        s is Empty || s is Available ==> {
            let both = after_register(after_register(s, first), second);
            &&& both == LockState::Available(second)
            &&& crate::option_lock::step(both, LockOp::Take) is Empty
        },
        !(s is Empty || s is Available) ==> after_register(s, first) == s,
{
}

} // verus!
