//! A read/write lock around an `Option` value.
//!
//! The lock is taken, shared and released by single operations, none of which
//! blocks. A guard carries the value out of the lock while it is held; a read
//! handle leaves the value in place and only counts.
//!
//! ```
//! use async_resource::option_lock::OptionLock;
//!
//! fn try_increase(shared: &mut OptionLock<i32>) -> bool {
//!     if let Ok(mut guard) = shared.try_lock() {
//!         let next = guard.take().unwrap() + 1;
//!         guard.replace(next);
//!         shared.unlock(guard);
//!         true
//!     } else {
//!         false
//!     }
//! }
//! ```

use vstd::prelude::*;
use vstd::std_specs::convert::FromSpecImpl;
use vstd::string::StringExecFns;

use crate::exchange::exchange;
use crate::util::debug::{option, option_text, pretty_text, pretty_tuple};
use crate::util::decimal::{decimal, decimal_of};

verus! {

/// Set in the state byte when a value is stored.
pub const SOME: u8 = 0x1;

/// Set in the state byte when no guard is held.
pub const FREE: u8 = 0x2;

/// A value is stored and no guard is held.
pub const AVAILABLE: u8 = 0x3;

/// What a lock is, as far as any caller can tell.
pub ghost enum LockState<T> {
    /// No value, no guard.
    Empty,
    /// A value, and nobody using it.
    Available(T),
    /// A value shared by a positive number of readers.
    ReadLock(T, nat),
    /// The value, if any, is with the guard.
    ExclusiveLock,
}

/// Why a value could not be read or taken.
#[derive(Clone, Copy, Debug, PartialEq, Eq, Structural)]
pub enum ReadError {
    /// There is no value.
    Empty,
    /// The value is in use.
    Locked,
}

/// The condition of a lock at the moment it was asked for.
#[derive(Clone, Copy, Debug, PartialEq, Eq, Structural)]
pub enum Status {
    /// There is a value and nobody uses it.
    Available,
    /// There is no value.
    Empty,
    /// A guard is held.
    ExclusiveLock,
    /// The value is shared by this many readers.
    ReadLock(usize),
}

impl Status {
    /// Check whether a guard is held.
    pub fn is_locked(&self) -> (r: bool)
        ensures
            r == (*self is ExclusiveLock),
    {
        matches!(self, Status::ExclusiveLock)
    }

    /// Check whether a read handle could be obtained.
    pub fn can_read(&self) -> (r: bool)
        ensures
            r == (*self is Available || *self is ReadLock),
    {
        matches!(self, Status::Available | Status::ReadLock(_))
    }

    /// Check whether the value could be taken.
    pub fn can_take(&self) -> (r: bool)
        ensures
            r == (*self is Available),
    {
        matches!(self, Status::Available)
    }

    /// The status in writing.
    pub fn debug(&self) -> (r: String)
        ensures
            r@ == status_text(*self),
    {
        match self {
            Status::Available => "Available".to_owned(),
            Status::Empty => "Empty".to_owned(),
            Status::ExclusiveLock => "ExclusiveLock".to_owned(),
            Status::ReadLock(count) => {
                let mut text: String = "ReadLock(".to_owned();
                text.append(decimal(*count).as_str());
                text.append(")");
                text
            },
        }
    }

    /// The number of read handles.
    pub fn readers(&self) -> (r: usize)
        ensures
            r == (match *self {
                Status::ReadLock(n) => n,
                _ => 0,
            }),
    {
        match self {
            Status::ReadLock(count) => *count,
            _ => 0,
        }
    }
}

/// The status that describes a lock state.
pub open spec fn status_of<T>(s: LockState<T>) -> Status {
    match s {
        LockState::Empty => Status::Empty,
        LockState::Available(_) => Status::Available,
        LockState::ReadLock(_, n) => Status::ReadLock(n as usize),
        LockState::ExclusiveLock => Status::ExclusiveLock,
    }
}

/// A status in writing.
pub open spec fn status_text(status: Status) -> Seq<char> {
    match status {
        Status::Available => "Available"@,
        Status::Empty => "Empty"@,
        Status::ExclusiveLock => "ExclusiveLock"@,
        Status::ReadLock(n) => "ReadLock("@ + decimal_of(n as nat) + ")"@,
    }
}

/// The state of a lock that holds `value` and that nobody uses.
pub open spec fn idle<T>(value: Option<T>) -> LockState<T> {
    match value {
        None => LockState::Empty,
        Some(v) => LockState::Available(v),
    }
}

/// The state of a lock whose value is shared by `readers` handles.
pub open spec fn shared<T>(value: T, readers: nat) -> LockState<T> {
    if readers == 0 {
        LockState::Available(value)
    } else {
        LockState::ReadLock(value, readers)
    }
}

/// The stored value, whoever reads it; none while a guard is held.
pub open spec fn stored<T>(s: LockState<T>) -> Option<T> {
    match s {
        LockState::Available(v) => Some(v),
        LockState::ReadLock(v, _) => Some(v),
        _ => None,
    }
}

/// The number of read handles that a state accounts for.
pub open spec fn readers_of<T>(s: LockState<T>) -> nat {
    match s {
        LockState::ReadLock(_, n) => n,
        _ => 0,
    }
}

/// The error with which an attempt to read fails in a state.
pub open spec fn read_error<T>(s: LockState<T>) -> ReadError {
    match s {
        LockState::Empty => ReadError::Empty,
        _ => ReadError::Locked,
    }
}

/// Check that nobody uses the lock.
pub open spec fn lockable<T>(s: LockState<T>) -> bool {
    s is Empty || s is Available
}

/// What can be done to a lock by those who share it.
pub ghost enum LockOp<T> {
    /// Ask for a guard.
    Lock,
    /// Ask for a guard on an empty lock.
    LockNone,
    /// Ask for the value.
    Take,
    /// Ask for a read handle.
    Read,
    /// Give back a guard and the value with it.
    Unlock(Option<T>),
    /// Give back a read handle.
    Release,
    /// Exchange a read handle for a guard.
    Upgrade,
    /// Exchange a read handle for the value.
    TakeRead,
    /// Exchange a guard and its value for a read handle.
    Downgrade(Option<T>),
}

/// The state in which an operation leaves a lock.
///
/// An attempt that fails changes nothing. What only the holder of a guard or a
/// handle can do is described for the states in which there is one.
pub open spec fn step<T>(s: LockState<T>, op: LockOp<T>) -> LockState<T> {
    match op {
        LockOp::Lock => if lockable(s) {
            LockState::ExclusiveLock
        } else {
            s
        },
        LockOp::LockNone => if s is Empty {
            LockState::ExclusiveLock
        } else {
            s
        },
        LockOp::Take => if s is Available {
            LockState::Empty
        } else {
            s
        },
        LockOp::Read => match stored(s) {
            Some(v) => LockState::ReadLock(v, readers_of(s) + 1),
            None => s,
        },
        LockOp::Unlock(value) => idle(value),
        LockOp::Release => match s {
            LockState::ReadLock(v, n) => shared(v, (n - 1) as nat),
            _ => s,
        },
        LockOp::Upgrade => if readers_of(s) == 1 {
            LockState::ExclusiveLock
        } else {
            s
        },
        LockOp::TakeRead => if readers_of(s) == 1 {
            LockState::Empty
        } else {
            s
        },
        LockOp::Downgrade(value) => match value {
            Some(v) => LockState::ReadLock(v, 1),
            None => LockState::Empty,
        },
    }
}

/// What a lock stores.
enum Slot<T> {
    /// A guard is held, and the value, if any, is with it.
    Held,
    /// There is no value.
    Empty,
    /// A value, with the number of its readers.
    Full(T, usize),
}

/// A read/write lock around an `Option` value.
pub struct OptionLock<T> {
    slot: Slot<T>,
}

impl<T> View for OptionLock<T> {
    type V = LockState<T>;

    closed spec fn view(&self) -> LockState<T> {
        match self.slot {
            Slot::Held => LockState::ExclusiveLock,
            Slot::Empty => LockState::Empty,
            Slot::Full(v, n) => shared(v, n as nat),
        }
    }
}

impl<T> OptionLock<T> {
    /// Create a new, empty instance.
    pub fn new() -> (r: Self)
        ensures
            r@ == LockState::<T>::Empty,
    {
        Self::empty()
    }

    /// Create a new, empty instance.
    pub fn empty() -> (r: Self)
        ensures
            r@ == LockState::<T>::Empty,
    {
        OptionLock { slot: Slot::Empty }
    }

    /// The lock that `from` makes of an optional value.
    pub closed spec fn holding(value: Option<T>) -> Self {
        match value {
            None => OptionLock { slot: Slot::Empty },
            Some(v) => OptionLock { slot: Slot::Full(v, 0) },
        }
    }

    /// A lock made of an optional value holds it, and nobody uses it.
    pub broadcast proof fn lemma_holding(value: Option<T>)
        ensures
            #[trigger] Self::holding(value)@ == idle(value),
    {
    }

    /// The state byte: `FREE` and `SOME` while nobody holds a guard, zero
    /// otherwise.
    pub(crate) fn state(&self) -> (r: u8)
        ensures
            r == (match self@ {
                LockState::ExclusiveLock => 0u8,
                LockState::Empty => FREE,
                _ => AVAILABLE,
            }),
    {
        match &self.slot {
            Slot::Held => 0,
            Slot::Empty => FREE,
            Slot::Full(_, _) => AVAILABLE,
        }
    }

    /// Report the condition of the lock.
    pub fn status(&self) -> (r: Status)
        ensures
            r == status_of(self@),
    {
        match &self.slot {
            Slot::Held => Status::ExclusiveLock,
            Slot::Empty => Status::Empty,
            Slot::Full(_, readers) => if *readers == 0 {
                Status::Available
            } else {
                Status::ReadLock(*readers)
            },
        }
    }

    /// The lock in writing.
    pub fn debug(&self) -> (r: String)
        ensures
            r@ == "OptionLock { status: "@ + status_text(status_of(self@)) + " }"@,
    {
        let mut text: String = "OptionLock { status: ".to_owned();
        text.append(self.status().debug().as_str());
        text.append(" }");
        text
    }

    /// Check if there is a stored value and no guard held.
    pub fn is_some_unlocked(&self) -> (r: bool)
        ensures
            r == (stored(self@) is Some),
    {
        self.state() == AVAILABLE
    }

    /// Check if there is no stored value and no guard held.
    pub fn is_none_unlocked(&self) -> (r: bool)
        ensures
            r == (self@ is Empty),
    {
        self.state() == FREE
    }

    /// Check if a guard is held.
    pub fn is_locked(&self) -> (r: bool)
        ensures
            r == (self@ is ExclusiveLock),
    {
        let state: u8 = self.state();
        state != FREE && state != AVAILABLE
    }

    /// Borrow the stored value, if there is one and no guard is held.
    pub fn get(&self) -> (r: Option<&T>)
        ensures
            match r {
                Some(v) => stored(self@) == Some(*v),
                None => stored(self@) is None,
            },
    {
        match &self.slot {
            Slot::Full(value, _) => Some(value),
            _ => None,
        }
    }

    /// Get a mutable reference to the contained value, if any.
    ///
    /// An owned lock has no read handles. A guard that was never given back
    /// keeps the value out of reach.
    pub fn get_mut(&mut self) -> (r: Option<&mut T>)
        requires
            !(old(self)@ is ReadLock),
        ensures
            match r {
                Some(v) => old(self)@ == LockState::Available(*v) && final(self)@
                    == LockState::Available(*final(v)),
                None => !(old(self)@ is Available) && final(self)@ == old(self)@,
            },
    {
        match &mut self.slot {
            Slot::Full(value, _) => Some(value),
            _ => None,
        }
    }

    /// Unwrap an owned lock instance.
    pub fn into_inner(self) -> (r: Option<T>)
        requires
            self@ is Empty || self@ is Available,
        ensures
            r == stored(self@),
    {
        match self.slot {
            Slot::Full(value, _) => Some(value),
            _ => None,
        }
    }

    /// Wait to acquire the lock.
    ///
    /// Returns at once when the lock can be had; nothing is promised of a lock
    /// that only another party can release.
    pub fn spin_lock(&mut self) -> (r: OptionGuard<T>)
        requires
            old(self)@ is Empty || old(self)@ is Available,
        ensures
            r@ == stored(old(self)@),
            final(self)@ == LockState::<T>::ExclusiveLock,
    {
        let mut attempt: Result<OptionGuard<T>, ReadError> = self.try_lock();
        while attempt.is_err()
            invariant
                attempt is Ok,
                attempt->Ok_0@ == stored(old(self)@),
                self@ == LockState::<T>::ExclusiveLock,
            decreases 0int,
        {
            attempt = self.try_lock();
        }
        match attempt {
            Ok(guard) => guard,
            Err(_) => vstd::pervasive::unreached(),
        }
    }

    /// Wait to acquire the lock with a value of None.
    ///
    /// Returns at once when the lock is empty and free.
    pub fn spin_lock_none(&mut self) -> (r: OptionGuard<T>)
        requires
            old(self)@ is Empty,
        ensures
            r@ is None,
            final(self)@ == LockState::<T>::ExclusiveLock,
    {
        let mut attempt: Option<OptionGuard<T>> = self.try_lock_none();
        while attempt.is_none()
            invariant
                attempt is Some,
                attempt->0@ is None,
                self@ == LockState::<T>::ExclusiveLock,
            decreases 0int,
        {
            attempt = self.try_lock_none();
        }
        match attempt {
            Some(guard) => guard,
            None => vstd::pervasive::unreached(),
        }
    }

    /// Wait to take a value from the lock.
    ///
    /// Returns at once when there is a value that nobody uses.
    pub fn spin_take(&mut self) -> (r: T)
        requires
            old(self)@ is Available,
        ensures
            old(self)@ == LockState::Available(r),
            final(self)@ == LockState::<T>::Empty,
    {
        let mut attempt: Result<T, ReadError> = self.try_take();
        while attempt.is_err()
            invariant
                attempt is Ok,
                old(self)@ == LockState::Available(attempt->Ok_0),
                self@ == LockState::<T>::Empty,
            decreases 0int,
        {
            attempt = self.try_take();
        }
        match attempt {
            Ok(result) => result,
            Err(_) => vstd::pervasive::unreached(),
        }
    }

    /// Try to acquire an exclusive lock.
    ///
    /// On success the guard represents an exclusive read/write lock. The
    /// attempt fails while a guard or a read handle exists.
    pub fn try_lock(&mut self) -> (r: Result<OptionGuard<T>, ReadError>)
        ensures
            r is Ok <==> lockable(old(self)@),
            match r {
                Ok(guard) => guard@ == stored(old(self)@),
                Err(err) => err == ReadError::Locked,
            },
            final(self)@ == step(old(self)@, LockOp::Lock),
    {
        if self.status().is_locked() || self.status().readers() > 0 {
            Err(ReadError::Locked)
        } else {
            match exchange(&mut self.slot, Slot::Held) {
                Slot::Full(value, _) => Ok(OptionGuard { value: Some(value) }),
                _ => Ok(OptionGuard { value: None }),
            }
        }
    }

    /// Try to acquire an exclusive lock, but only if the value is currently None.
    pub fn try_lock_none(&mut self) -> (r: Option<OptionGuard<T>>)
        ensures
            r is Some <==> old(self)@ is Empty,
            r is Some ==> r->0@ is None,
            final(self)@ == step(old(self)@, LockOp::LockNone),
    {
        if self.state() == FREE {
            self.slot = Slot::Held;
            Some(OptionGuard { value: None })
        } else {
            None
        }
    }

    /// Try to take a stored value from the lock.
    ///
    /// Acquisition can fail either because there is no contained value, or
    /// because the value is in use.
    pub fn try_take(&mut self) -> (r: Result<T, ReadError>)
        ensures
            r == (match old(self)@ {
                LockState::Available(v) => Ok::<T, ReadError>(v),
                s => Err::<T, ReadError>(read_error(s)),
            }),
            final(self)@ == step(old(self)@, LockOp::Take),
    {
        if self.status().is_locked() || self.status().readers() > 0 {
            Err(ReadError::Locked)
        } else {
            match exchange(&mut self.slot, Slot::Empty) {
                Slot::Full(value, _) => Ok(value),
                _ => Err(ReadError::Empty),
            }
        }
    }

    /// Try to obtain a handle for reading the stored value.
    ///
    /// The number of handles is limited by the range of its counter.
    pub fn try_read(&mut self) -> (r: Result<OptionRead, ReadError>)
        requires
            readers_of(old(self)@) < usize::MAX,
        ensures
            r is Ok <==> stored(old(self)@) is Some,
            r is Err ==> r->Err_0 == read_error(old(self)@),
            final(self)@ == step(old(self)@, LockOp::Read),
    {
        match &mut self.slot {
            Slot::Held => Err(ReadError::Locked),
            Slot::Empty => Err(ReadError::Empty),
            Slot::Full(_, readers) => {
                *readers = *readers + 1;
                Ok(OptionRead { granted: () })
            },
        }
    }

    /// Give back a guard, leaving its value in the lock.
    pub fn unlock(&mut self, guard: OptionGuard<T>)
        requires
            old(self)@ is ExclusiveLock,
        ensures
            final(self)@ == step(old(self)@, LockOp::Unlock(guard@)),
    {
        self.slot = match guard.value {
            Some(value) => Slot::Full(value, 0),
            None => Slot::Empty,
        };
    }

    /// Give back a read handle.
    pub fn release(&mut self, read: OptionRead)
        requires
            old(self)@ is ReadLock,
        ensures
            final(self)@ == step(old(self)@, LockOp::Release),
    {
        match &mut self.slot {
            Slot::Full(_, readers) => {
                *readers = *readers - 1;
            },
            _ => (),
        }
    }

    /// The value that a read handle gives access to.
    pub fn deref(&self, read: &OptionRead) -> (r: &T)
        requires
            self@ is ReadLock,
        ensures
            *r == self@->ReadLock_0,
    {
        match &self.slot {
            Slot::Full(value, _) => value,
            _ => vstd::pervasive::unreached(),
        }
    }

    /// Replace the value in an owned `OptionLock`.
    pub fn replace(&mut self, value: T) -> (r: Option<T>)
        requires
            old(self)@ is Empty || old(self)@ is Available,
        ensures
            r == stored(old(self)@),
            final(self)@ == LockState::Available(value),
    {
        match exchange(&mut self.slot, Slot::Full(value, 0)) {
            Slot::Full(previous, _) => Some(previous),
            _ => None,
        }
    }

    /// Take the value (if any) from an owned `OptionLock`.
    pub fn take(&mut self) -> (r: Option<T>)
        requires
            old(self)@ is Empty || old(self)@ is Available,
        ensures
            r == stored(old(self)@),
            final(self)@ == LockState::<T>::Empty,
    {
        match exchange(&mut self.slot, Slot::Empty) {
            Slot::Full(value, _) => Some(value),
            _ => None,
        }
    }
}

impl<T> OptionLock<T> {
    /// Turn an owned lock into what it holds.
    pub fn into(self) -> (r: Option<T>)
        requires
            self@ is Empty || self@ is Available,
        ensures
            r == stored(self@),
    {
        let mut lock: OptionLock<T> = self;
        lock.take()
    }
}

impl<T> Default for OptionLock<T> {
    fn default() -> (r: Self)
        ensures
            r@ == LockState::<T>::Empty,
    {
        Self::empty()
    }
}

impl<T> From<T> for OptionLock<T> {
    fn from(data: T) -> (r: Self) {
        OptionLock { slot: Slot::Full(data, 0) }
    }
}

impl<T> FromSpecImpl<T> for OptionLock<T> {
    open spec fn obeys_from_spec() -> bool {
        true
    }

    open spec fn from_spec(data: T) -> Self {
        Self::holding(Some(data))
    }
}

impl<T> From<Option<T>> for OptionLock<T> {
    fn from(data: Option<T>) -> (r: Self) {
        match data {
            Some(data) => OptionLock { slot: Slot::Full(data, 0) },
            None => OptionLock { slot: Slot::Empty },
        }
    }
}

impl<T> FromSpecImpl<Option<T>> for OptionLock<T> {
    open spec fn obeys_from_spec() -> bool {
        true
    }

    open spec fn from_spec(data: Option<T>) -> Self {
        Self::holding(data)
    }
}

/// A write guard, with the value of the lock that it was taken from.
#[derive(Debug, PartialEq, Eq)]
pub struct OptionGuard<T> {
    value: Option<T>,
}

impl<T> View for OptionGuard<T> {
    type V = Option<T>;

    closed spec fn view(&self) -> Option<T> {
        self.value
    }
}

impl<T> OptionGuard<T> {
    /// Give the guard back to its lock, and its value with it.
    pub fn drop(self, lock: &mut OptionLock<T>)
        requires
            old(lock)@ is ExclusiveLock,
        ensures
            final(lock)@ == step(old(lock)@, LockOp::Unlock(self@)),
    {
        lock.unlock(self);
    }

    /// Borrow the value, if any.
    pub fn as_ref(&self) -> (r: Option<&T>)
        ensures
            match r {
                Some(v) => self@ == Some(*v),
                None => self@ is None,
            },
    {
        self.value.as_ref()
    }

    /// Borrow the value for writing, if any.
    pub fn as_mut_ref(&mut self) -> (r: Option<&mut T>)
        ensures
            match r {
                Some(v) => old(self)@ == Some(*v) && final(self)@ == Some(*final(v)),
                None => old(self)@ is None && final(self)@ is None,
            },
    {
        self.value.as_mut()
    }

    /// Check that there is no value.
    pub fn is_none(&self) -> (r: bool)
        ensures
            r == (self@ is None),
    {
        self.value.is_none()
    }

    /// Check that there is a value.
    pub fn is_some(&self) -> (r: bool)
        ensures
            r == (self@ is Some),
    {
        self.value.is_some()
    }

    /// Replace the value in the lock, returning the previous value, if any.
    pub fn replace(&mut self, value: T) -> (r: Option<T>)
        ensures
            r == old(self)@,
            final(self)@ == Some(value),
    {
        let ret: Option<T> = self.value.take();
        self.value = Some(value);
        ret
    }

    /// Take the current value from the lock, if any.
    pub fn take(&mut self) -> (r: Option<T>)
        ensures
            r == old(self)@,
            final(self)@ is None,
    {
        self.value.take()
    }

    /// The guard in writing, given how the value is written.
    pub fn debug(&self, alternate: bool, inner: &str) -> (r: String)
        ensures
            r@ == (if alternate {
                pretty_text("OptionGuard"@, option_text(self@ is Some, true, inner@))
            } else {
                option_text(self@ is Some, false, inner@)
            }),
    {
        let value: String = option(self.is_some(), alternate, inner);
        if alternate {
            pretty_tuple("OptionGuard", value.as_str())
        } else {
            value
        }
    }

    /// Exchange a guard for a read handle.
    ///
    /// A guard without a value is given back instead, and no handle results.
    pub fn downgrade(guard: Self, lock: &mut OptionLock<T>) -> (r: Option<OptionRead>)
        requires
            old(lock)@ is ExclusiveLock,
        ensures
            r is Some <==> guard@ is Some,
            final(lock)@ == step(old(lock)@, LockOp::Downgrade(guard@)),
    {
        lock.unlock(guard);
        match lock.try_read() {
            Ok(read) => Some(read),
            Err(_) => None,
        }
    }
}

/// A read handle on the value of an [`OptionLock`].
#[derive(Debug, PartialEq, Eq)]
pub struct OptionRead {
    granted: (),
}

impl OptionRead {
    /// The handle in writing, given how the value is written.
    pub fn debug(&self, alternate: bool, inner: &str) -> (r: String)
        ensures
            r@ == (if alternate {
                pretty_text("OptionRead"@, inner@)
            } else {
                inner@
            }),
    {
        if alternate {
            pretty_tuple("OptionRead", inner)
        } else {
            inner.to_owned()
        }
    }

    /// Try to exchange a read handle for a guard.
    ///
    /// Succeeds for the only handle; otherwise the handle comes back.
    pub fn try_lock<T>(read: Self, lock: &mut OptionLock<T>) -> (r: Result<OptionGuard<T>, Self>)
        requires
            old(lock)@ is ReadLock,
        ensures
            r is Ok <==> readers_of(old(lock)@) == 1,
            match r {
                Ok(guard) => guard@ == stored(old(lock)@),
                Err(back) => back == read,
            },
            final(lock)@ == step(old(lock)@, LockOp::Upgrade),
    {
        if lock.status().readers() == 1 {
            lock.release(read);
            match lock.try_lock() {
                Ok(guard) => Ok(guard),
                Err(_) => vstd::pervasive::unreached(),
            }
        } else {
            Err(read)
        }
    }

    /// Try to take the value through a read handle.
    ///
    /// Succeeds for the only handle; otherwise the handle comes back.
    pub fn try_take<T>(read: Self, lock: &mut OptionLock<T>) -> (r: Result<T, Self>)
        requires
            old(lock)@ is ReadLock,
        ensures
            r is Ok <==> readers_of(old(lock)@) == 1,
            match r {
                Ok(value) => stored(old(lock)@) == Some(value),
                Err(back) => back == read,
            },
            final(lock)@ == step(old(lock)@, LockOp::TakeRead),
    {
        if lock.status().readers() == 1 {
            lock.release(read);
            match lock.try_take() {
                Ok(value) => Ok(value),
                Err(_) => vstd::pervasive::unreached(),
            }
        } else {
            Err(read)
        }
    }
}

/// The guards and read handles that exist agree with the state of the lock.
pub open spec fn accounted<T>(s: LockState<T>, guards: int, reads: int) -> bool {
    &&& guards == (if s is ExclusiveLock { 1int } else { 0int })
    &&& reads == readers_of(s)
    &&& s is ReadLock ==> reads > 0
}

/// Check that somebody is in a position to perform an operation.
pub open spec fn enabled<T>(op: LockOp<T>, guards: int, reads: int) -> bool {
    match op {
        LockOp::Unlock(_) | LockOp::Downgrade(_) => guards > 0,
        LockOp::Release | LockOp::Upgrade | LockOp::TakeRead => reads > 0,
        _ => true,
    }
}

/// The number of guards that exist after an operation.
pub open spec fn guards_after<T>(s: LockState<T>, op: LockOp<T>, guards: int) -> int {
    match op {
        LockOp::Lock => if lockable(s) { guards + 1 } else { guards },
        LockOp::LockNone => if s is Empty { guards + 1 } else { guards },
        LockOp::Upgrade => if readers_of(s) == 1 { guards + 1 } else { guards },
        LockOp::Unlock(_) | LockOp::Downgrade(_) => guards - 1,
        _ => guards,
    }
}

/// The number of read handles that exist after an operation.
pub open spec fn reads_after<T>(s: LockState<T>, op: LockOp<T>, reads: int) -> int {
    match op {
        LockOp::Read => if stored(s) is Some { reads + 1 } else { reads },
        LockOp::Release => reads - 1,
        LockOp::Upgrade | LockOp::TakeRead => if readers_of(s) == 1 {
            reads - 1
        } else {
            reads
        },
        LockOp::Downgrade(value) => if value is Some { reads + 1 } else { reads },
        _ => reads,
    }
}

/// Whatever is done to a lock, in whatever order: there is never more than one
/// guard, never a guard beside a read handle, and the lock counts its readers
/// right.
pub proof fn law_accounted<T>(s: LockState<T>, op: LockOp<T>, guards: int, reads: int)
    requires
        accounted(s, guards, reads),
        enabled(op, guards, reads),
    ensures
        guards_after(s, op, guards) >= 0,
        reads_after(s, op, reads) >= 0,
        accounted(
            step(s, op),
            guards_after(s, op, guards),
            reads_after(s, op, reads),
        ),
        guards <= 1,
        guards == 0 || reads == 0,
{
}

/// After a guard was given back nobody has it, and the lock holds exactly what the
/// guard had: the next guard gets it, and so does whoever takes the value.
pub proof fn law_unlock_keeps_value<T>(s: LockState<T>, value: Option<T>)
    requires
        s is ExclusiveLock,
    ensures
        ({
            let after = step(s, LockOp::Unlock(value));
            &&& !(after is ExclusiveLock)
            &&& lockable(after)
            &&& stored(after) == value
            &&& stored(after) is Some <==> value is Some
            &&& after is Empty <==> value is None
            &&& value is Some ==> step(after, LockOp::Take) is Empty
        }),
{
}

/// A guard that is given back with the value it came with leaves the lock as it
/// was.
pub proof fn law_unlock_restores<T>(s: LockState<T>)
    requires
        lockable(s),
    ensures
        step(step(s, LockOp::Lock), LockOp::Unlock(stored(s))) == s,
{
}

/// A read handle that is obtained and given back leaves the lock as it was.
pub proof fn law_release_restores<T>(s: LockState<T>)
    requires
        stored(s) is Some,
        s is ReadLock ==> readers_of(s) > 0,
    ensures
        step(step(s, LockOp::Read), LockOp::Release) == s,
{
}

/// While a guard is held, nothing but giving it back has any effect.
pub proof fn law_guard_excludes<T>(s: LockState<T>, op: LockOp<T>)
    requires
        s is ExclusiveLock,
        enabled(op, 0, 0),
    ensures
        step(s, op) == s,
{
}

/// While others read, nobody can change or remove the value.
pub proof fn law_readers_keep_value<T>(s: LockState<T>, op: LockOp<T>)
    requires
        readers_of(s) > 1,
        enabled(op, 0, readers_of(s) as int),
    ensures
        stored(step(s, op)) == stored(s),
{
}

/// Exchanging the only read handle for a guard and back again leaves the lock
/// as it was.
pub proof fn law_downgrade_undoes_upgrade<T>(s: LockState<T>)
    requires
        readers_of(s) == 1,
    ensures
        step(step(s, LockOp::Upgrade), LockOp::Downgrade(stored(s))) == s,
{
}

/// A reader that could not become a writer does not stand in the way of the
/// next attempt: a failed request changes nothing at all.
pub proof fn law_failure_is_silent<T>(s: LockState<T>)
    ensures
        !lockable(s) ==> step(s, LockOp::Lock) == s,
        !(s is Available) ==> step(s, LockOp::Take) == s,
        stored(s) is None ==> step(s, LockOp::Read) == s,
{
}

/// The state of a lock after a number of requests to read.
pub open spec fn after_reads<T>(s: LockState<T>, n: nat) -> LockState<T>
    decreases n,
{
    if n == 0 {
        s
    } else {
        step(after_reads(s, (n - 1) as nat), LockOp::Read)
    }
}

/// The state of a lock after a number of read handles were given back.
pub open spec fn after_releases<T>(s: LockState<T>, n: nat) -> LockState<T>
    decreases n,
{
    if n == 0 {
        s
    } else {
        step(after_releases(s, (n - 1) as nat), LockOp::Release)
    }
}

/// Any number of readers share a value, and each of them is counted. The value is free
/// again when the last of them has given it back, and not before.
pub proof fn law_any_number_reads<T>(value: T, n: nat, back: nat)
    requires
        0 < n,
        back <= n,
    ensures
        after_reads(LockState::Available(value), n) == LockState::ReadLock(value, n),
        back < n ==> after_releases(LockState::ReadLock(value, n), back) == LockState::ReadLock(
            value,
            (n - back) as nat,
        ),
        back == n ==> after_releases(LockState::ReadLock(value, n), back) == LockState::Available(
            value,
        ),
    decreases n + back,
{
    if n > 1 {
        law_any_number_reads(value, (n - 1) as nat, 0);
    } else {
        assert(after_reads(LockState::Available(value), 0) == LockState::Available(value));
    }
    if back > 0 {
        law_any_number_reads(value, n, (back - 1) as nat);
    }
}

/// A lock that nobody uses is granted to whoever asks, with a value or without, and so is
/// the value. Whoever wants an empty lock gets it only if it is empty. The only reader may
/// have the lock or the value, one among several may not.
pub proof fn law_free_lock_is_granted<T>(value: T, n: nat)
    requires
        0 < n,
    ensures
        step(LockState::<T>::Empty, LockOp::Lock) is ExclusiveLock,
        step(LockState::<T>::Empty, LockOp::LockNone) is ExclusiveLock,
        step(LockState::<T>::Empty, LockOp::Take) is Empty,
        step(LockState::Available(value), LockOp::Lock) is ExclusiveLock,
        step(LockState::Available(value), LockOp::LockNone) == LockState::Available(value),
        step(LockState::Available(value), LockOp::Take) is Empty,
        step(LockState::ReadLock(value, n), LockOp::Lock) == LockState::ReadLock(value, n),
        step(LockState::ReadLock(value, n), LockOp::LockNone) == LockState::ReadLock(value, n),
        step(LockState::ReadLock(value, n), LockOp::Take) == LockState::ReadLock(value, n),
        n == 1 ==> step(LockState::ReadLock(value, n), LockOp::Upgrade) is ExclusiveLock,
        n == 1 ==> step(LockState::ReadLock(value, n), LockOp::TakeRead) is Empty,
        n > 1 ==> step(LockState::ReadLock(value, n), LockOp::Upgrade) == LockState::ReadLock(
            value,
            n,
        ),
        n > 1 ==> step(LockState::ReadLock(value, n), LockOp::TakeRead) == LockState::ReadLock(
            value,
            n,
        ),
        step(
            LockState::ExclusiveLock,
            LockOp::Downgrade(Some(value)),
        ) == LockState::ReadLock(value, 1),
        step(LockState::<T>::ExclusiveLock, LockOp::Downgrade(None)) is Empty,
{
}

/// The status tells what can be done: a lock is available if its value can be taken, empty
/// if it is to be had without a value, and otherwise it is held or read.
pub proof fn law_status_tells<T>(s: LockState<T>)
    requires
        s is ReadLock ==> 0 < readers_of(s) <= usize::MAX,
    ensures
        status_of(s) is Available <==> lockable(s) && stored(s) is Some,
        status_of(s) is Empty <==> lockable(s) && stored(s) is None,
        status_of(s) is ExclusiveLock <==> !lockable(s) && stored(s) is None,
        status_of(s) is ReadLock <==> !lockable(s) && stored(s) is Some,
        status_of(s) matches Status::ReadLock(n) ==> n == readers_of(s),
        stored(s) is None ==> (read_error(s) is Empty <==> lockable(s)),
        stored(s) is None ==> (read_error(s) is Locked <==> !lockable(s)),
{
}

} // verus!
