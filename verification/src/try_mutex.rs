//! A lock around a value that is always there.

use vstd::prelude::*;

use crate::option_lock::{LockState, OptionGuard, OptionLock};

verus! {

broadcast use OptionLock::lemma_holding;

/// A wrapper around an [`OptionLock`] which ensures that there is always a stored
/// value.
pub struct TryMutex<T> {
    lock: OptionLock<T>,
}

/// The right to use the value.
pub struct TryMutexLock<T> {
    guard: OptionGuard<T>,
}

impl<T> View for TryMutex<T> {
    type V = Option<T>;

    /// The value, unless it is in use.
    closed spec fn view(&self) -> Option<T> {
        match self.lock@ {
            LockState::Available(value) => Some(value),
            _ => None,
        }
    }
}

impl<T> TryMutex<T> {
    /// There is a value, or somebody uses it.
    pub closed spec fn wf(&self) -> bool {
        self.lock@ is Available || self.lock@ is ExclusiveLock
    }

    /// Create a lock around a value.
    pub fn new(value: T) -> (r: Self)
        ensures
            r.wf(),
            r@ == Some(value),
    {
        TryMutex { lock: OptionLock::from(value) }
    }

    /// Get the value, unless it is in use.
    pub fn try_lock(&mut self) -> (r: Option<TryMutexLock<T>>)
        requires
            old(self).wf(),
        ensures
            final(self).wf(),
            final(self)@ is None,
            match old(self)@ {
                Some(value) => r is Some && r->0.wf() && r->0@ == value,
                None => r is None,
            },
    {
        match self.lock.try_lock() {
            Ok(guard) => Some(TryMutexLock { guard }),
            Err(_) => None,
        }
    }

    /// Give the value back.
    pub fn unlock(&mut self, guard: TryMutexLock<T>)
        requires
            old(self).wf(),
            old(self)@ is None,
            guard.wf(),
        ensures
            final(self).wf(),
            final(self)@ == Some(guard@),
    {
        self.lock.unlock(guard.guard);
    }
}

impl<T> View for TryMutexLock<T> {
    type V = T;

    /// The value.
    closed spec fn view(&self) -> T {
        self.guard@->0
    }
}

impl<T> TryMutexLock<T> {
    /// There is a value.
    pub closed spec fn wf(&self) -> bool {
        self.guard@ is Some
    }

    /// The value.
    pub fn deref(&self) -> (r: &T)
        requires
            self.wf(),
        ensures
            *r == self@,
    {
        match self.guard.as_ref() {
            Some(value) => value,
            None => vstd::pervasive::unreached(),
        }
    }

    /// The value.
    pub fn deref_mut(&mut self) -> (r: &mut T)
        requires
            old(self).wf(),
        ensures
            *r == old(self)@,
            final(self).wf(),
            final(self)@ == *final(r),
    {
        match self.guard.as_mut_ref() {
            Some(value) => value,
            None => vstd::pervasive::unreached(),
        }
    }
}

} // verus!
