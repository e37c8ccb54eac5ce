//! A cell that is written at most once.

use vstd::prelude::*;
use vstd::std_specs::convert::FromSpecImpl;

use crate::option_lock::{stored, LockState, OptionGuard, OptionLock};
use crate::util::debug::{option, option_text, pretty_text, pretty_tuple, tuple, tuple_text};

verus! {

broadcast use OptionLock::lemma_holding;

/// An `Option` value which can be safely written once.
pub struct OnceCell<T>(OptionLock<T>);

impl<T> View for OnceCell<T> {
    type V = LockState<T>;

    closed spec fn view(&self) -> LockState<T> {
        self.0@
    }
}

impl<T> OnceCell<T> {
    /// Create a new, empty `OnceCell`.
    pub fn empty() -> (r: Self)
        ensures
            r@ == LockState::<T>::Empty,
    {
        OnceCell(OptionLock::empty())
    }

    /// Create a `OnceCell` from an owned value.
    pub fn new(value: T) -> (r: Self)
        ensures
            r@ == LockState::Available(value),
    {
        OnceCell(OptionLock::from(value))
    }

    /// The cell that `from` makes of a lock.
    pub closed spec fn around(lock: OptionLock<T>) -> Self {
        OnceCell(lock)
    }

    /// A cell made of a lock is in the state of the lock.
    pub broadcast proof fn lemma_around(lock: OptionLock<T>)
        ensures
            #[trigger] Self::around(lock)@ == lock@,
    {
    }

    /// Get a shared reference to the contained value, if any.
    pub fn get(&self) -> (r: Option<&T>)
        ensures
            match r {
                Some(v) => stored(self@) == Some(*v),
                None => stored(self@) is None,
            },
    {
        if self.0.is_some_unlocked() {
            self.0.get()
        } else {
            None
        }
    }

    /// Get a mutable reference to the contained value, if any.
    pub fn get_mut(&mut self) -> (r: Option<&mut T>)
        requires
            !(old(self)@ is ReadLock),
        ensures
            match r {
                Some(v) => old(self)@ == LockState::Available(*v) && final(self)@
                    == LockState::Available(*final(v)),
                None => !(old(self)@ is Available) && final(self)@ == old(self)@,
            },
    {
        self.0.get_mut()
    }

    /// Assign the value of the OnceCell, returning `Some(value)` if
    /// the cell is already locked or populated.
    pub fn set(&mut self, value: T) -> (r: Option<T>)
        ensures
            r == (if old(self)@ is Empty {
                None
            } else {
                Some(value)
            }),
            final(self)@ == after_set(old(self)@, value),
    {
        match self.0.try_lock_none() {
            Some(locked) => {
                let mut guard: OptionGuard<T> = locked;
                let previous: Option<T> = guard.replace(value);
                self.0.unlock(guard);
                previous
            },
            None => Some(value),
        }
    }

    /// Extract the inner value.
    pub fn into_inner(self) -> (r: Option<T>)
        requires
            self@ is Empty || self@ is Available,
        ensures
            r == stored(self@),
    {
        self.0.into_inner()
    }

    /// Check if the lock is currently acquired.
    pub fn is_locked(&self) -> (r: bool)
        ensures
            r == (self@ is ExclusiveLock),
    {
        self.0.is_locked()
    }

    /// The cell in writing, given how the value is written.
    pub fn debug(&self, alternate: bool, inner: &str) -> (r: String)
        ensures
            r@ == ({
                let value = option_text(stored(self@) is Some, alternate, inner@);
                if alternate {
                    pretty_text("OnceCell"@, value)
                } else {
                    tuple_text("OnceCell"@, value)
                }
            }),
    {
        let value: String = option(self.get().is_some(), alternate, inner);
        if alternate {
            pretty_tuple("OnceCell", value.as_str())
        } else {
            tuple("OnceCell", value.as_str())
        }
    }

    /// The value as it is displayed, or that there is none.
    pub fn message(&self, inner: &str) -> (r: String)
        ensures
            r@ == (if stored(self@) is Some {
                inner@
            } else {
                "None"@
            }),
    {
        if self.get().is_some() {
            inner.to_owned()
        } else {
            "None".to_owned()
        }
    }
}

impl<T: Clone> Clone for OnceCell<T> {
    fn clone(&self) -> (r: Self)
        ensures
            match stored(self@) {
                Some(v) => r@ is Available && cloned::<T>(v, r@->Available_0),
                None => r@ is Empty,
            },
    {
        OnceCell(OptionLock::from(self.get().cloned()))
    }
}

impl<T> Default for OnceCell<T> {
    fn default() -> (r: Self)
        ensures
            r@ == LockState::<T>::Empty,
    {
        OnceCell::empty()
    }
}

impl<T> From<T> for OnceCell<T> {
    fn from(data: T) -> (r: Self) {
        OnceCell(OptionLock::from(data))
    }
}

impl<T> FromSpecImpl<T> for OnceCell<T> {
    open spec fn obeys_from_spec() -> bool {
        true
    }

    open spec fn from_spec(data: T) -> Self {
        Self::around(OptionLock::holding(Some(data)))
    }
}

impl<T> From<Option<T>> for OnceCell<T> {
    fn from(data: Option<T>) -> (r: Self) {
        OnceCell(OptionLock::from(data))
    }
}

impl<T> FromSpecImpl<Option<T>> for OnceCell<T> {
    open spec fn obeys_from_spec() -> bool {
        true
    }

    open spec fn from_spec(data: Option<T>) -> Self {
        Self::around(OptionLock::holding(data))
    }
}

impl<T> From<OptionLock<T>> for OnceCell<T> {
    fn from(lock: OptionLock<T>) -> (r: Self) {
        OnceCell(lock)
    }
}

impl<T> FromSpecImpl<OptionLock<T>> for OnceCell<T> {
    open spec fn obeys_from_spec() -> bool {
        true
    }

    open spec fn from_spec(lock: OptionLock<T>) -> Self {
        Self::around(lock)
    }
}

/// The state in which writing a value leaves a cell.
pub open spec fn after_set<T>(s: LockState<T>, value: T) -> LockState<T> {
    if s is Empty {
        LockState::Available(value)
    } else {
        s
    }
}

/// Only the first value written to a cell ever stays in it.
pub proof fn law_written_once<T>(s: LockState<T>, first: T, second: T)
    requires
        s is Empty,
    ensures
        after_set(after_set(s, first), second) == LockState::Available(first),
{
}

} // verus!
