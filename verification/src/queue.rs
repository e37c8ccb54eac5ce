//! Queues between the users of a pool and its manager.
//!
//! The queue itself is `concurrent_queue::ConcurrentQueue`. It carries plain
//! tuples; what it is used for is encoded in them.

use core::marker::PhantomData;

use concurrent_queue::ConcurrentQueue;
use vstd::prelude::*;

verus! {

/// What a queue carries.
pub type Entry = (u8, u128, usize);

/// Declares `concurrent_queue::ConcurrentQueue`.
#[verifier::external_type_specification]
#[verifier::external_body]
#[verifier::reject_recursive_types(T)]
pub struct ExConcurrentQueue<T>(ConcurrentQueue<T>);

/// What a queue holds, the entry that leaves first in front.
pub uninterp spec fn queue_items(queue: ConcurrentQueue<(u8, u128, usize)>) -> Seq<
    (u8, u128, usize),
>;

/// How many entries a queue was made for, unless it is unbounded.
pub uninterp spec fn queue_limit(queue: ConcurrentQueue<(u8, u128, usize)>) -> Option<usize>;

/// Whether a queue was closed.
pub uninterp spec fn queue_closed(queue: ConcurrentQueue<(u8, u128, usize)>) -> bool;

/// Why an entry was not taken in.
#[derive(Clone, Copy, Debug, PartialEq, Eq, Structural)]
pub enum PushFailure {
    /// The queue is full.
    Full,
    /// The queue is closed.
    Closed,
}

/// Why no entry came out.
#[derive(Clone, Copy, Debug, PartialEq, Eq, Structural)]
pub enum PopFailure {
    /// There is no entry.
    Empty,
    /// There is no entry and the queue is closed.
    Closed,
}

/// Calls `ConcurrentQueue::unbounded`: the new queue is empty, open and without
/// a limit.
#[verifier::external_body]
fn queue_unbounded() -> (r: ConcurrentQueue<(u8, u128, usize)>)
    ensures
        queue_items(r) == Seq::<(u8, u128, usize)>::empty(),
        queue_limit(r) == None::<usize>,
        !queue_closed(r),
{
    ConcurrentQueue::unbounded()
}

/// Calls `ConcurrentQueue::bounded`: the new queue is empty, open and made for
/// the given number of entries. It panics on zero, and where the entries would
/// take up more than the address space.
#[verifier::external_body]
fn queue_bounded(cap: usize) -> (r: ConcurrentQueue<(u8, u128, usize)>)
    requires
        0 < cap,
        cap * 64 <= isize::MAX,
    ensures
        queue_items(r) == Seq::<(u8, u128, usize)>::empty(),
        queue_limit(r) == Some(cap),
        !queue_closed(r),
{
    ConcurrentQueue::bounded(cap)
}

/// Calls `ConcurrentQueue::push`: the entry goes to the end, unless the queue is
/// closed, or open and full.
#[verifier::external_body]
fn queue_push(queue: &mut ConcurrentQueue<(u8, u128, usize)>, entry: (u8, u128, usize)) -> (r:
    Result<(), PushFailure>)
    ensures
        r == (if queue_closed(*old(queue)) {
            Err::<(), PushFailure>(PushFailure::Closed)
        } else if queue_limit(*old(queue)) is Some && queue_items(*old(queue)).len()
            >= queue_limit(*old(queue))->0 {
            Err::<(), PushFailure>(PushFailure::Full)
        } else {
            Ok::<(), PushFailure>(())
        }),
        queue_items(*final(queue)) == (if r is Ok {
            queue_items(*old(queue)).push(entry)
        } else {
            queue_items(*old(queue))
        }),
        queue_limit(*final(queue)) == queue_limit(*old(queue)),
        queue_closed(*final(queue)) == queue_closed(*old(queue)),
{
    match queue.push(entry) {
        Ok(()) => Ok(()),
        Err(concurrent_queue::PushError::Full(_)) => Err(PushFailure::Full),
        Err(concurrent_queue::PushError::Closed(_)) => Err(PushFailure::Closed),
    }
}

/// Calls `ConcurrentQueue::pop`: the entry in front leaves, if there is one.
#[verifier::external_body]
fn queue_pop(queue: &mut ConcurrentQueue<(u8, u128, usize)>) -> (r: Result<
    (u8, u128, usize),
    PopFailure,
>)
    ensures
        r == (if queue_items(*old(queue)).len() > 0 {
            Ok::<(u8, u128, usize), PopFailure>(queue_items(*old(queue))[0])
        } else if queue_closed(*old(queue)) {
            Err::<(u8, u128, usize), PopFailure>(PopFailure::Closed)
        } else {
            Err::<(u8, u128, usize), PopFailure>(PopFailure::Empty)
        }),
        queue_items(*final(queue)) == (if r is Ok {
            queue_items(*old(queue)).subrange(1, queue_items(*old(queue)).len() as int)
        } else {
            queue_items(*old(queue))
        }),
        queue_limit(*final(queue)) == queue_limit(*old(queue)),
        queue_closed(*final(queue)) == queue_closed(*old(queue)),
{
    match queue.pop() {
        Ok(entry) => Ok(entry),
        Err(concurrent_queue::PopError::Empty) => Err(PopFailure::Empty),
        Err(concurrent_queue::PopError::Closed) => Err(PopFailure::Closed),
    }
}

/// Calls `ConcurrentQueue::is_empty`: there is no entry.
#[verifier::external_body]
fn queue_is_empty(queue: &ConcurrentQueue<(u8, u128, usize)>) -> (r: bool)
    ensures
        r == (queue_items(*queue).len() == 0),
{
    queue.is_empty()
}

/// A value that can be carried by a queue.
pub trait Coded: Sized {
    /// The value that an entry stands for.
    spec fn decoded(entry: Entry) -> Self;

    /// The entry that stands for a value.
    fn encode(self) -> (r: Entry)
        ensures
            Self::decoded(r) == self,
    ;

    /// The value that an entry stands for.
    fn decode(entry: Entry) -> (r: Self)
        ensures
            r == Self::decoded(entry),
    ;
}

impl Coded for usize {
    open spec fn decoded(entry: Entry) -> usize {
        entry.2
    }

    fn encode(self) -> (r: Entry) {
        (0, 0, self)
    }

    fn decode(entry: Entry) -> (r: usize) {
        entry.2
    }
}

/// A queue of values.
#[verifier::reject_recursive_types(C)]
pub struct Queue<C> {
    queue: ConcurrentQueue<(u8, u128, usize)>,
    carries: PhantomData<C>,
}

impl<C: Coded> Queue<C> {
    /// What the queue holds, the value that leaves first in front.
    pub closed spec fn items(&self) -> Seq<C> {
        queue_items(self.queue).map_values(|entry: Entry| C::decoded(entry))
    }

    /// How many values the queue was made for, unless it is unbounded.
    pub closed spec fn limit(&self) -> Option<usize> {
        queue_limit(self.queue)
    }

    /// Whether the queue was closed.
    pub closed spec fn is_closed(&self) -> bool {
        queue_closed(self.queue)
    }

    /// Whether the queue takes in everything.
    pub open spec fn boundless(&self) -> bool {
        self.limit() is None && !self.is_closed()
    }

    /// Create an empty queue without a limit.
    pub fn unbounded() -> (r: Self)
        ensures
            r.items() == Seq::<C>::empty(),
            r.boundless(),
    {
        let r = Queue { queue: queue_unbounded(), carries: PhantomData };
        assert(r.items() =~= Seq::<C>::empty());
        r
    }

    /// Create an empty queue that is made for a number of values.
    pub fn bounded(cap: usize) -> (r: Self)
        requires
            0 < cap,
            cap * 64 <= isize::MAX,
        ensures
            r.items() == Seq::<C>::empty(),
            r.limit() == Some(cap),
            !r.is_closed(),
    {
        let r = Queue { queue: queue_bounded(cap), carries: PhantomData };
        assert(r.items() =~= Seq::<C>::empty());
        r
    }

    /// Add a value at the end, unless the queue is closed or full.
    pub fn push(&mut self, value: C) -> (r: Result<(), PushFailure>)
        ensures
            r == (if old(self).is_closed() {
                Err::<(), PushFailure>(PushFailure::Closed)
            } else if old(self).limit() is Some && old(self).items().len() >= old(self).limit()->0 {
                Err::<(), PushFailure>(PushFailure::Full)
            } else {
                Ok::<(), PushFailure>(())
            }),
            final(self).items() == (if r is Ok {
                old(self).items().push(value)
            } else {
                old(self).items()
            }),
            final(self).limit() == old(self).limit(),
            final(self).is_closed() == old(self).is_closed(),
    {
        let entry: Entry = value.encode();
        let r = queue_push(&mut self.queue, entry);
        assert(self.items() =~= (if r is Ok {
            old(self).items().push(value)
        } else {
            old(self).items()
        }));
        r
    }

    /// Take the value in front.
    pub fn pop(&mut self) -> (r: Result<C, PopFailure>)
        ensures
            r == (if old(self).items().len() > 0 {
                Ok::<C, PopFailure>(old(self).items()[0])
            } else if old(self).is_closed() {
                Err::<C, PopFailure>(PopFailure::Closed)
            } else {
                Err::<C, PopFailure>(PopFailure::Empty)
            }),
            final(self).items() == (if r is Ok {
                old(self).items().drop_first()
            } else {
                old(self).items()
            }),
            final(self).limit() == old(self).limit(),
            final(self).is_closed() == old(self).is_closed(),
    {
        match queue_pop(&mut self.queue) {
            Ok(entry) => {
                assert(self.items() =~= old(self).items().drop_first());
                Ok(C::decode(entry))
            },
            Err(failure) => Err(failure),
        }
    }

    /// Check whether there is nothing in the queue.
    pub fn is_empty(&self) -> (r: bool)
        ensures
            r == (self.items().len() == 0),
    {
        queue_is_empty(&self.queue)
    }
}

} // verus!
