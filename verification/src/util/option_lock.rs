//! A lock around an `Option` value whose whole condition is one word.
//!
//! The lowest bit of the word tells whether there is a value, the next one
//! whether the lock is free, and the remaining bits count the readers. Every
//! request is one operation on the word, also one that fails: a request for
//! the lock clears the free bit, a request to read counts a reader.

use std::sync::Arc;

use vstd::prelude::*;
use vstd::std_specs::cmp::PartialEqSpecImpl;
use vstd::std_specs::convert::FromSpecImpl;

use crate::util::debug::{option, option_text, pretty_text, pretty_tuple};

verus! {

/// Set when there is a value.
pub const SOME: usize = 1;

/// Set when the lock is free.
pub const FREE: usize = 2;

/// How far the number of readers is shifted.
pub const SHIFT: usize = 2;

/// The condition of a lock, and the value in it.
#[verifier::ext_equal]
pub ghost struct LockView<T> {
    /// What is stored.
    pub value: Option<T>,
    /// The bit that tells whether there is a value.
    pub some: bool,
    /// The bit that tells whether the lock is free.
    pub free: bool,
    /// The number of readers counted.
    pub readers: nat,
}

/// Why a value could not be read.
#[derive(Clone, Copy, Debug, PartialEq, Eq, Structural)]
pub enum ReadError {
    /// There is no value.
    Empty,
    /// The lock is held.
    Locked,
}

/// The condition of a lock at the moment it was asked for.
#[derive(Clone, Copy, Debug, PartialEq, Eq, Structural)]
pub enum Status {
    /// A guard is held.
    ExclusiveLock,
    /// There is no value.
    Empty,
    /// This many readers are counted.
    ReadLock(usize),
    /// There is a value and nobody uses it.
    Available,
}

impl Status {
    /// Check whether a guard is held.
    pub fn is_locked(&self) -> (r: bool)
        ensures
            r == (*self is ExclusiveLock),
    {
        matches!(self, Status::ExclusiveLock)
    }

    /// Check whether there is no value.
    pub fn is_none(&self) -> (r: bool)
        ensures
            r == (*self is Empty),
    {
        matches!(self, Status::Empty)
    }

    /// Check whether there is a value that can be read.
    pub fn is_some(&self) -> (r: bool)
        ensures
            r == (*self is Available || *self is ReadLock),
    {
        matches!(self, Status::Available | Status::ReadLock(_))
    }

    /// The number of readers.
    pub fn readers(&self) -> (r: usize)
        ensures
            r == (match *self {
                Status::ReadLock(n) => n,
                _ => 0,
            }),
    {
        match self {
            Status::ReadLock(count) => *count,
            _ => 0,
        }
    }
}

/// The status that a lock reports.
pub open spec fn status_of<T>(s: LockView<T>) -> Status {
    if s.readers > 0 {
        Status::ReadLock(s.readers as usize)
    } else if !s.free {
        Status::ExclusiveLock
    } else if s.some {
        Status::Available
    } else {
        Status::Empty
    }
}

/// Check that a request to read succeeds.
pub open spec fn readable<T>(s: LockView<T>) -> bool {
    s.some && (s.free || s.readers > 0)
}

/// Check that a request for the lock succeeds.
pub open spec fn lockable<T>(s: LockView<T>) -> bool {
    s.free && s.readers == 0
}

/// The lock as a request to read leaves it.
pub open spec fn after_read<T>(s: LockView<T>) -> LockView<T> {
    LockView { readers: s.readers + 1, ..s }
}

/// The lock as a request for it leaves it.
pub open spec fn after_lock<T>(s: LockView<T>) -> LockView<T> {
    LockView { free: false, ..s }
}

/// The lock as a request for its value leaves it.
pub open spec fn after_take<T>(s: LockView<T>) -> LockView<T> {
    if lockable(s) {
        LockView { value: None, some: false, free: true, readers: 0 }
    } else {
        after_lock(s)
    }
}

/// The lock as a request to turn a read handle into a guard leaves it.
pub open spec fn after_upgrade<T>(s: LockView<T>) -> LockView<T> {
    if s.some && s.readers == 1 {
        LockView { free: false, readers: 0, ..s }
    } else {
        s
    }
}

/// The lock after a read handle was given back.
///
/// The last one restores the free bit that a refused request has cleared.
pub open spec fn after_release<T>(s: LockView<T>) -> LockView<T> {
    LockView {
        free: s.free || (s.some && s.readers == 1),
        readers: (s.readers - 1) as nat,
        ..s
    }
}

/// The lock after a guard was given back.
pub open spec fn after_unlock<T>(s: LockView<T>) -> LockView<T> {
    LockView { some: s.value is Some, free: true, readers: 0, ..s }
}

/// The bits of a word, as arithmetic.
proof fn lemma_bits(w: usize)
    by (bit_vector)
    ensures
        w & 1 == w % 2,
        w & !1 == w - w % 2,
        w & !2 == w - 2 * ((w / 2) % 2),
        w >> 1 == w / 2,
        w >> 2 == w / 4,
        (1usize << 2usize) == 4usize,
        (2usize | 1usize) == 3usize,
        (4usize | 1usize) == 5usize,
        (4usize | 2usize | 1usize) == 7usize,
        (1usize | 2usize) == 3usize,
{
}

/// A lock around an `Option` value.
pub struct OptionLock<T> {
    data: Option<T>,
    state: usize,
    place: Arc<()>,
}

impl<T> View for OptionLock<T> {
    type V = LockView<T>;

    closed spec fn view(&self) -> LockView<T> {
        LockView {
            value: self.data,
            some: self.state % 2 == 1,
            free: (self.state / 2) % 2 == 1,
            readers: (self.state / 4) as nat,
        }
    }
}

impl<T> OptionLock<T> {
    /// Create an empty lock.
    pub fn new() -> (r: Self)
        ensures
            r@ == (LockView::<T> { value: None, some: false, free: true, readers: 0 }),
    {
        OptionLock { data: None, state: FREE, place: Arc::new(()) }
    }

    /// The lock that `from` makes of an optional value.
    pub closed spec fn holding(value: Option<T>) -> Self {
        OptionLock { data: value, state: if value is Some { 3 } else { 2 }, place: Arc::new(()) }
    }

    /// A lock made of an optional value holds it, and nobody uses it.
    pub broadcast proof fn lemma_holding(value: Option<T>)
        ensures
            #[trigger] Self::holding(value)@ == (LockView::<T> {
                value,
                some: value is Some,
                free: true,
                readers: 0,
            }),
    {
    }

    /// What is stored, whoever uses it.
    pub fn get_unchecked(&mut self) -> (r: &mut Option<T>)
        ensures
            *r == old(self)@.value,
            final(self)@ == (LockView::<T> { value: *final(r), ..old(self)@ }),
    {
        &mut self.data
    }

    /// Unwrap an owned lock.
    pub fn into_inner(self) -> (r: Option<T>)
        ensures
            r == self@.value,
    {
        self.data
    }

    /// Ask for a handle to read the value.
    ///
    /// A reader is counted whether or not a handle results; nobody gives back one that
    /// was refused. The count is limited by the range of the word.
    pub fn read(&mut self) -> (r: Result<OptionRead, ReadError>)
        requires
            4 * (old(self)@.readers + 1) + 3 <= usize::MAX,
        ensures
            r is Ok <==> readable(old(self)@),
            r is Err ==> r->Err_0 == (if !old(self)@.free && old(self)@.readers == 0 {
                ReadError::Locked
            } else {
                ReadError::Empty
            }),
            final(self)@ == after_read(old(self)@),
    {
        let state: usize = self.state;
        proof {
            lemma_bits(state);
        }
        self.state = state + (1 << SHIFT);
        if state == FREE | SOME || (state & SOME == SOME && state >> SHIFT != 0) {
            Ok(OptionRead { place: self.place.clone() })
        } else if state >> 1 == 0 {
            Err(ReadError::Locked)
        } else {
            Err(ReadError::Empty)
        }
    }

    /// Report the condition of the lock.
    pub fn status(&self) -> (r: Status)
        ensures
            r == status_of(self@),
    {
        let state: usize = self.state;
        proof {
            lemma_bits(state);
        }
        if state & !SOME == 0 {
            Status::ExclusiveLock
        } else if state == FREE {
            Status::Empty
        } else if state == FREE | SOME {
            Status::Available
        } else {
            Status::ReadLock(state >> SHIFT)
        }
    }

    /// Ask for the lock.
    pub fn try_lock(&mut self) -> (r: Option<OptionGuard>)
        ensures
            r is Some <==> lockable(old(self)@),
            final(self)@ == after_lock(old(self)@),
    {
        let state: usize = self.state;
        proof {
            lemma_bits(state);
        }
        self.state = state & !FREE;
        if state & !SOME == FREE {
            Some(OptionGuard { place: self.place.clone() })
        } else {
            None
        }
    }

    /// Ask for the value.
    pub fn try_take(&mut self) -> (r: Option<T>)
        ensures
            r == (if lockable(old(self)@) {
                old(self)@.value
            } else {
                None
            }),
            final(self)@ == after_take(old(self)@),
    {
        let state: usize = self.state;
        proof {
            lemma_bits(state);
        }
        self.state = state & !FREE;
        if state & !SOME == FREE {
            let result: Option<T> = self.data.take();
            self.state = FREE;
            result
        } else {
            None
        }
    }

    /// Ask to turn a read handle into a guard.
    ///
    /// Succeeds for the only reader of a value; otherwise the handle comes back.
    pub fn upgrade_lock(&mut self, read: OptionRead) -> (r: Result<OptionGuard, OptionRead>)
        ensures
            r is Ok <==> old(self)@.some && old(self)@.readers == 1,
            r is Err ==> r->Err_0 == read,
            final(self)@ == after_upgrade(old(self)@),
    {
        let state: usize = self.state;
        proof {
            lemma_bits(state);
        }
        if state & !FREE == (1 << SHIFT) | SOME {
            self.state = SOME;
            Ok(OptionGuard { place: self.place.clone() })
        } else {
            Err(read)
        }
    }

    /// Give back a read handle.
    pub fn release(&mut self, read: OptionRead)
        requires
            old(self)@.readers > 0,
        ensures
            final(self)@ == after_release(old(self)@),
    {
        let prev: usize = self.state;
        proof {
            lemma_bits(prev);
        }
        self.state = prev - (1 << SHIFT);
        if prev == (1 << SHIFT) | SOME {
            // somebody asked for the lock and was refused, so restore the flag
            self.state = SOME | FREE;
        }
    }

    /// Give back a guard.
    pub fn unlock(&mut self, guard: OptionGuard)
        ensures
            final(self)@ == after_unlock(old(self)@),
    {
        proof {
            lemma_bits(0);
        }
        self.state = if self.data.is_some() {
            SOME | FREE
        } else {
            FREE
        };
    }

    /// The value that a read handle gives access to.
    pub fn deref(&self, read: &OptionRead) -> (r: &T)
        requires
            self@.value is Some,
        ensures
            Some(*r) == self@.value,
    {
        match &self.data {
            Some(value) => value,
            None => vstd::pervasive::unreached(),
        }
    }

    /// The optional value that a guard gives access to.
    pub fn deref_mut(&mut self, guard: &OptionGuard) -> (r: &mut Option<T>)
        ensures
            *r == old(self)@.value,
            final(self)@ == (LockView::<T> { value: *final(r), ..old(self)@ }),
    {
        &mut self.data
    }
}

impl<T> Default for OptionLock<T> {
    fn default() -> (r: Self)
        ensures
            r@ == (LockView::<T> { value: None, some: false, free: true, readers: 0 }),
    {
        Self::new()
    }
}

impl<T> From<T> for OptionLock<T> {
    fn from(data: T) -> (r: Self) {
        proof {
            lemma_bits(0);
        }
        OptionLock { data: Some(data), state: SOME | FREE, place: Arc::new(()) }
    }
}

impl<T> FromSpecImpl<T> for OptionLock<T> {
    open spec fn obeys_from_spec() -> bool {
        true
    }

    open spec fn from_spec(data: T) -> Self {
        Self::holding(Some(data))
    }
}

impl<T> From<Option<T>> for OptionLock<T> {
    fn from(data: Option<T>) -> (r: Self) {
        proof {
            lemma_bits(0);
        }
        let state: usize = if data.is_some() {
            SOME | FREE
        } else {
            FREE
        };
        OptionLock { data, state, place: Arc::new(()) }
    }
}

impl<T> FromSpecImpl<Option<T>> for OptionLock<T> {
    open spec fn obeys_from_spec() -> bool {
        true
    }

    open spec fn from_spec(data: Option<T>) -> Self {
        Self::holding(data)
    }
}

/// Check whether two places are the same, by [`Arc::ptr_eq`]: whether both point to
/// one allocation. Nothing is stated of the result, which rests on addresses.
#[verifier::external_body]
fn same_place(a: &Arc<()>, b: &Arc<()>) -> bool {
    Arc::ptr_eq(a, b)
}

/// A handle for reading the value of an [`OptionLock`]. Two of them are equal if they
/// are of the same lock.
#[derive(Debug)]
pub struct OptionRead {
    place: Arc<()>,
}

impl OptionRead {
    /// The handle in writing, given how the value is written.
    pub fn debug(&self, alternate: bool, inner: &str) -> (r: String)
        ensures
            r@ == (if alternate {
                pretty_text("OptionRead"@, inner@)
            } else {
                inner@
            }),
    {
        if alternate {
            pretty_tuple("OptionRead", inner)
        } else {
            inner.to_owned()
        }
    }
}

impl PartialEq for OptionRead {
    fn eq(&self, other: &Self) -> (r: bool) {
        same_place(&self.place, &other.place)
    }
}

impl PartialEqSpecImpl for OptionRead {
    open spec fn obeys_eq_spec() -> bool {
        false
    }

    open spec fn eq_spec(&self, other: &Self) -> bool {
        arbitrary()
    }
}

impl Eq for OptionRead {

}

/// A handle for reading and writing what an [`OptionLock`] stores. Two of them are
/// equal if they are of the same lock.
#[derive(Debug)]
pub struct OptionGuard {
    place: Arc<()>,
}

impl OptionGuard {
    /// The handle in writing, given its lock and how the value is written.
    pub fn debug<T>(&self, lock: &OptionLock<T>, alternate: bool, inner: &str) -> (r: String)
        ensures
            r@ == ({
                let value = option_text(lock@.value is Some, alternate, inner@);
                if alternate {
                    pretty_text("OptionGuard"@, value)
                } else {
                    value
                }
            }),
    {
        let value: String = option(lock.data.is_some(), alternate, inner);
        if alternate {
            pretty_tuple("OptionGuard", value.as_str())
        } else {
            value
        }
    }
}

impl PartialEq for OptionGuard {
    fn eq(&self, other: &Self) -> (r: bool) {
        same_place(&self.place, &other.place)
    }
}

impl PartialEqSpecImpl for OptionGuard {
    open spec fn obeys_eq_spec() -> bool {
        false
    }

    open spec fn eq_spec(&self, other: &Self) -> bool {
        arbitrary()
    }
}

impl Eq for OptionGuard {

}

/// The bit for a value agrees with what is stored, unless a guard is held.
pub open spec fn settled<T>(s: LockView<T>) -> bool {
    s.some == (s.value is Some)
}

/// A guard is the only one: while it is held nobody gets another one, a read
/// handle or the value, whatever is tried.
pub proof fn law_guard_excludes<T>(s: LockView<T>)
    requires
        lockable(s),
    ensures
        !lockable(after_lock(s)),
        !readable(after_lock(s)),
        after_take(after_lock(s)) == after_lock(s),
        after_lock(after_lock(s)) == after_lock(s),
{
}

/// Giving back a guard makes the lock as good as new, with what was left in it.
pub proof fn law_unlock_frees<T>(s: LockView<T>)
    ensures
        settled(after_unlock(s)),
        lockable(after_unlock(s)),
        after_unlock(s).value == s.value,
{
}

/// Reading and giving back the handle leaves a lock as it was.
pub proof fn law_release_restores<T>(s: LockView<T>)
    requires
        readable(s),
        s.free,
    ensures
        after_release(after_read(s)) == s,
{
}

/// A request for the lock that was refused because of a reader does not keep
/// the lock from being free once the reader is gone.
pub proof fn law_refused_lock_is_undone<T>(s: LockView<T>)
    requires
        s.some,
        s.readers == 1,
        s.free,
    ensures
        !lockable(s),
        after_release(after_lock(s)) == after_release(s),
        lockable(after_release(after_lock(s))),
{
}

/// The only reader can become the writer and finds the value that it read.
pub proof fn law_upgrade_keeps_value<T>(s: LockView<T>)
    requires
        s.some,
        s.readers == 1,
    ensures
        after_upgrade(s).value == s.value,
        status_of(after_upgrade(s)) is ExclusiveLock,
{
}

/// A value can be read by any number of readers at a time, as long as nobody writes, and
/// locked by one that is alone. The status says which.
pub proof fn law_readers_share<T>(s: LockView<T>)
    ensures
        s.some && s.free ==> readable(s) && readable(after_read(s)) && readable(
            after_read(after_read(s)),
        ),
        s.some && s.readers > 0 ==> readable(s),
        !s.some ==> !readable(s),
        !s.free && s.readers == 0 ==> !readable(s) && !lockable(s),
        s.free && s.readers == 0 ==> lockable(s),
        s.readers > 0 ==> !lockable(s),
        after_read(s).readers == s.readers + 1,
        after_read(s).value == s.value,
        s.readers > 0 ==> after_release(s).readers == s.readers - 1 && after_release(s).value
            == s.value,
        s.readers == 0 && s.free && s.some ==> status_of(s) is Available,
        s.readers == 0 && s.free && !s.some ==> status_of(s) is Empty,
        s.readers == 0 && !s.free ==> status_of(s) is ExclusiveLock,
        0 < s.readers <= usize::MAX ==> status_of(s) == Status::ReadLock(s.readers as usize),
{
}

/// Taking the value out of a lock that is free leaves it empty and free; otherwise the
/// value stays.
pub proof fn law_taken_once<T>(s: LockView<T>)
    ensures
        s.free && s.readers == 0 ==> after_take(s).value is None && lockable(after_take(s))
            && !readable(after_take(s)),
        !(s.free && s.readers == 0) ==> after_take(s).value == s.value && after_take(s).readers
            == s.readers,
        s.some && s.readers > 1 ==> after_upgrade(s) == s,
{
}

} // verus!
