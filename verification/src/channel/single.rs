//! An unbounded queue with any number of senders and one reader, which is woken
//! by every value.

use vstd::prelude::*;

use crate::channel::block::{
    blank, chain_inv, entries, lemma_commit, lemma_index_bits, lemma_pop, lemma_position,
    lemma_reserve, position, slot_inv, slot_of, Block, Slot, BLOCK_CAP, LAP, MARK_BIT, SHIFT,
    STEP,
};
use crate::channel::drain::Drain;
use crate::option_lock::{LockOp, LockState, OptionGuard, OptionLock};
use crate::poll::Poll;

verus! {

/// A queue, as far as senders and reader can tell.
#[verifier::ext_equal]
pub ghost struct QueueView<T, W> {
    /// The values that were not read yet, in the order in which places were
    /// reserved for them; nothing in place of one that was not written yet.
    pub items: Seq<Option<T>>,
    /// How many values were read.
    pub popped: int,
    /// Whether the reader has closed the queue.
    pub closed: bool,
    /// The number of senders.
    pub senders: int,
    /// The lock under which the reader leaves its waker.
    pub waker: LockState<W>,
}

/// The waker that somebody who asks for it gets.
pub open spec fn due<W>(waker: LockState<W>) -> Option<W> {
    match waker {
        LockState::Available(w) => Some(w),
        _ => None,
    }
}

/// The lock after somebody asked for the waker.
pub open spec fn after_wake<W>(waker: LockState<W>) -> LockState<W> {
    crate::option_lock::step(waker, LockOp::Take)
}

/// The lock after the reader left a waker.
pub open spec fn after_register<W>(lock: LockState<W>, waker: Option<W>) -> LockState<W> {
    match waker {
        Some(w) => LockState::Available(w),
        None => lock,
    }
}

/// Check that there is still a place that the index of a queue can number.
pub open spec fn has_room<T, W>(q: QueueView<T, W>) -> bool {
    2 * (position(q.popped + q.items.len() as int) + 2) + 1 <= usize::MAX
}

/// The queue after a place was reserved.
pub open spec fn after_reserve<T, W>(q: QueueView<T, W>) -> QueueView<T, W> {
    QueueView { items: q.items.push(None), ..q }
}

/// Check that a place was reserved under a number and not written yet.
pub open spec fn reserved<T, W>(q: QueueView<T, W>, number: int) -> bool {
    &&& q.popped <= number < q.popped + q.items.len()
    &&& q.items[number - q.popped] is None
}

/// The queue after a value was written to a reserved place.
pub open spec fn after_commit<T, W>(q: QueueView<T, W>, number: int, value: T) -> QueueView<
    T,
    W,
> {
    QueueView {
        items: q.items.update(number - q.popped, Some(value)),
        waker: after_wake(q.waker),
        ..q
    }
}

/// The queue after a value was sent.
pub open spec fn after_push<T, W>(q: QueueView<T, W>, value: T) -> QueueView<T, W> {
    if q.closed {
        q
    } else {
        QueueView { items: q.items.push(Some(value)), waker: after_wake(q.waker), ..q }
    }
}

/// The value that the reader gets: the first one, once it is written.
pub open spec fn front<T, W>(q: QueueView<T, W>) -> Option<T> {
    if q.items.len() > 0 {
        q.items[0]
    } else {
        None
    }
}

/// The queue after the reader asked for a value.
pub open spec fn after_pop<T, W>(q: QueueView<T, W>) -> QueueView<T, W> {
    if front(q) is Some {
        QueueView { items: q.items.drop_first(), popped: q.popped + 1, ..q }
    } else {
        q
    }
}

/// The queue after the reader asked for a value and left a waker.
///
/// A reader that sees a place reserved wakes itself.
pub open spec fn after_pop_wake<T, W>(q: QueueView<T, W>, waker: Option<W>) -> QueueView<T, W> {
    if front(q) is Some {
        after_pop(q)
    } else {
        let lock = after_register(q.waker, waker);
        QueueView {
            waker: if q.items.len() > 0 {
                after_wake(lock)
            } else {
                lock
            },
            ..q
        }
    }
}

/// A place in a queue that was reserved for a value.
pub struct Ticket {
    index: usize,
}

impl View for Ticket {
    type V = int;

    closed spec fn view(&self) -> int {
        number_at(self.index as int)
    }
}

impl Ticket {
    /// The index refers to a value.
    #[verifier::type_invariant]
    spec fn inv(self) -> bool {
        0 <= self@ && self.index == 2 * position(self@)
    }
}

/// The number of the value to which an index refers.
pub closed spec fn number_at(index: int) -> int {
    let p = index / 2;
    p - p / 32
}

/// An index refers to the number whose position it holds.
proof fn lemma_number_at(number: int)
    requires
        0 <= number,
    ensures
        number_at(2 * position(number)) == number,
        number_at(2 * position(number) + 1) == number,
        number_at(position(number) * 2) == number,
{
    lemma_position(number);
    assert((2 * position(number)) / 2 == position(number));
    assert((2 * position(number) + 1) / 2 == position(number));
}

/// An unbounded queue with one reader.
pub struct Queue<T, W> {
    /// The index of the next value to be read.
    read_index: usize,
    /// The index of the next place to be reserved; marked when the queue is
    /// closed.
    write_index: usize,
    blocks: Vec<Block<T>>,
    senders: usize,
    waker: OptionLock<W>,
}

impl<T, W> View for Queue<T, W> {
    type V = QueueView<T, W>;

    closed spec fn view(&self) -> QueueView<T, W> {
        QueueView {
            items: entries(self.blocks@, self.head(), self.tail()),
            popped: self.head(),
            closed: self.write_index % 2 == 1,
            senders: self.senders as int,
            waker: self.waker@,
        }
    }
}

impl<T, W> Queue<T, W> {
    spec fn head(self) -> int {
        number_at(self.read_index as int)
    }

    spec fn tail(self) -> int {
        number_at(self.write_index as int)
    }

    /// The indices refer to values, and the blocks hold what they say.
    pub closed spec fn wf(self) -> bool {
        &&& self.read_index == 2 * position(self.head())
        &&& self.write_index / 2 == position(self.tail())
        &&& chain_inv(self.blocks@, self.head(), self.tail())
    }

    /// Create an empty queue with one sender.
    pub fn new() -> (r: Self)
        ensures
            r.wf(),
            r@ == (QueueView::<T, W> {
                items: Seq::empty(),
                popped: 0,
                closed: false,
                senders: 1,
                waker: LockState::Empty,
            }),
    {
        let block: Block<T> = Block::new();
        let mut blocks: Vec<Block<T>> = Vec::new();
        blocks.push(block);
        let r: Self = Queue {
            read_index: 0,
            write_index: 0,
            blocks,
            senders: 1,
            waker: OptionLock::new(),
        };
        proof {
            lemma_number_at(0);
            assert forall|i: int| 0 <= i < 31 implies blank(
                #[trigger] slot_of(r.blocks@, 0, i),
            ) by {
                assert(blank(block.slots@[i]));
            }
            assert(r@.items =~= Seq::<Option<T>>::empty());
        }
        r
    }

    /// The first half of sending: reserve a place for a value.
    ///
    /// There is none in a closed queue. The number of places is limited by the
    /// range of an index.
    pub fn reserve(&mut self) -> (r: Option<Ticket>)
        requires
            old(self).wf(),
            old(self)@.closed || has_room(old(self)@),
        ensures
            final(self).wf(),
            r is None <==> old(self)@.closed,
            match r {
                Some(ticket) => ticket@ == old(self)@.popped + old(self)@.items.len()
                    && final(self)@ == after_reserve(old(self)@),
                None => final(self)@ == old(self)@,
            },
    {
        let tail: usize = self.write_index;
        let ghost number = self.tail();
        let ghost chain = self.blocks@;
        proof {
            lemma_index_bits(tail);
            lemma_position(number);
            lemma_number_at(number);
            lemma_number_at(number + 1);
        }
        // Check if receiver has been dropped
        if tail & MARK_BIT != 0 {
            return None;
        }
        // Calculate the offset of the index into the block.
        let offset: usize = (tail >> SHIFT) % LAP;
        // Advance the tail, past the last position of a block.
        let block: Block<T> = Block::new();
        let ghost fresh = block;
        if offset + 1 == BLOCK_CAP {
            self.blocks.push(block);
            self.write_index = tail + STEP + STEP;
        } else {
            self.write_index = tail + STEP;
        }
        proof {
            lemma_reserve(chain, self.blocks@, fresh, self.head(), number);
        }
        Some(Ticket { index: tail })
    }

    /// The second half of sending: write the value to its place.
    ///
    /// Returns the waker that is due.
    pub fn commit(&mut self, ticket: Ticket, value: T) -> (r: Option<W>)
        requires
            old(self).wf(),
            reserved(old(self)@, ticket@),
        ensures
            final(self).wf(),
            r == due(old(self)@.waker),
            final(self)@ == after_commit(old(self)@, ticket@, value),
    {
        let ghost number = ticket@;
        let ghost head = self.head();
        let ghost chain = self.blocks@;
        proof {
            lemma_index_bits(ticket.index);
            lemma_index_bits(self.read_index);
            lemma_position(head);
            lemma_position(number);
            use_type_invariant(&ticket);
            assert(head / 31 <= number / 31 <= self.tail() / 31);
        }
        let place: usize = ticket.index >> SHIFT;
        let block: usize = place / LAP - (self.read_index >> SHIFT) / LAP;
        let offset: usize = place % LAP;
        let slot: &mut Slot<T> = &mut self.blocks[block].slots[offset];
        *slot = Slot { value: Some(value), written: true, read: false };
        proof {
            lemma_commit(chain, self.blocks@, head, self.tail(), number, value);
        }
        self.wake_rx()
    }

    /// Send a value.
    ///
    /// Returns the value if the reader has closed the queue, and the waker that
    /// is due.
    pub fn push(&mut self, value: T) -> (r: (Option<T>, Option<W>))
        requires
            old(self).wf(),
            old(self)@.closed || has_room(old(self)@),
        ensures
            final(self).wf(),
            r.0 == (if old(self)@.closed {
                Some(value)
            } else {
                None
            }),
            r.1 == (if old(self)@.closed {
                None
            } else {
                due(old(self)@.waker)
            }),
            final(self)@ == after_push(old(self)@, value),
    {
        match self.reserve() {
            None => (Some(value), None),
            Some(ticket) => {
                let waker: Option<W> = self.commit(ticket, value);
                proof {
                    assert(self@.items =~= old(self)@.items.push(Some(value)));
                }
                (None, waker)
            },
        }
    }

    /// Read the first value, if it is written.
    pub fn pop(&mut self) -> (r: Option<T>)
        requires
            old(self).wf(),
        ensures
            final(self).wf(),
            r == front(old(self)@),
            final(self)@ == after_pop(old(self)@),
    {
        let index: usize = self.read_index;
        let ghost head = self.head();
        let ghost tail = self.tail();
        let ghost chain = self.blocks@;
        proof {
            lemma_index_bits(index);
            lemma_position(head);
            lemma_position(tail);
            lemma_number_at(head + 1);
            assert(chain[0].slots@.len() == BLOCK_CAP);
            if head < tail {
                assert(slot_inv(slot_of(chain, head, head)));
                assert(self@.items[0] == slot_of(chain, head, head).value);
                crate::channel::block::lemma_position_order(head, tail);
            } else {
                assert(blank(slot_of(chain, head, tail)));
            }
        }
        let offset: usize = (index >> SHIFT) % LAP;
        if !self.blocks[0].slots[offset].written {
            return None;
        }
        let slot: &mut Slot<T> = &mut self.blocks[0].slots[offset];
        let value: Option<T> = slot.value.take();
        slot.read = true;
        let ghost read = self.blocks@;
        if offset == BLOCK_CAP - 1 {
            let _ = self.blocks.remove(0);
            self.read_index = index + STEP + STEP;
        } else {
            self.read_index = index + STEP;
        }
        proof {
            lemma_pop(chain, read, self.blocks@, head, tail);
        }
        value
    }

    /// Read the first value; if there is none, leave a waker.
    ///
    /// Returns an error when all senders are gone and nothing is left, and the
    /// waker that is due: a reader that sees a place reserved wakes itself.
    /// Nobody else is leaving a waker.
    pub fn pop_wake(&mut self, waker: Option<W>) -> (r: (Result<Option<T>, bool>, Option<W>))
        requires
            old(self).wf(),
            front(old(self)@) is None && waker is Some ==> crate::option_lock::lockable(
                old(self)@.waker,
            ),
        ensures
            final(self).wf(),
            r.0 == (match front(old(self)@) {
                Some(v) => Ok::<Option<T>, bool>(Some(v)),
                None => if old(self)@.items.len() == 0 && old(self)@.senders == 0 {
                    Err::<Option<T>, bool>(false)
                } else {
                    Ok::<Option<T>, bool>(None)
                },
            }),
            r.1 == (if front(old(self)@) is None && old(self)@.items.len() > 0 {
                due(after_register(old(self)@.waker, waker))
            } else {
                None
            }),
            final(self)@ == after_pop_wake(old(self)@, waker),
    {
        match self.pop() {
            Some(value) => (Ok(Some(value)), None),
            None => {
                if let Some(waker) = waker {
                    match self.waker.try_lock() {
                        Ok(locked) => {
                            let mut guard: OptionGuard<W> = locked;
                            let _ = guard.replace(waker);
                            self.waker.unlock(guard);
                        },
                        Err(_) => {
                            vstd::pervasive::unreached::<()>();
                        },
                    }
                }
                if !self.is_empty() {
                    // a write was interrupted, or was started after the read
                    let due: Option<W> = self.wake_rx();
                    (Ok(None), due)
                } else if self.tx_closed() {
                    (Err(false), None)
                } else {
                    (Ok(None), None)
                }
            },
        }
    }

    /// Closes the queue.
    ///
    /// Returns `true` if this call closed the queue.
    pub fn close_rx(&mut self) -> (r: bool)
        requires
            old(self).wf(),
        ensures
            final(self).wf(),
            r == !old(self)@.closed,
            final(self)@ == (QueueView::<T, W> { closed: true, ..old(self)@ }),
    {
        let tail: usize = self.write_index;
        let ghost number = self.tail();
        proof {
            lemma_index_bits(tail);
            lemma_number_at(number);
        }
        self.write_index = tail | MARK_BIT;
        tail & MARK_BIT == 0
    }

    /// Returns `true` if the queue is closed.
    pub fn rx_closed(&self) -> (r: bool)
        ensures
            r == self@.closed,
    {
        proof {
            lemma_index_bits(self.write_index);
        }
        self.write_index & MARK_BIT != 0
    }

    /// Count one more sender.
    pub fn inc_senders(&mut self)
        requires
            old(self).wf(),
            old(self)@.senders < usize::MAX,
        ensures
            final(self).wf(),
            final(self)@ == (QueueView::<T, W> {
                senders: old(self)@.senders + 1,
                ..old(self)@
            }),
    {
        self.senders = self.senders + 1;
    }

    /// Count one sender less. Returns the waker that is due when it was the
    /// last one.
    pub fn dec_senders(&mut self) -> (r: Option<W>)
        requires
            old(self).wf(),
            old(self)@.senders > 0,
        ensures
            final(self).wf(),
            r == (if old(self)@.senders == 1 {
                due(old(self)@.waker)
            } else {
                None
            }),
            final(self)@ == after_dec(old(self)@),
    {
        let before: usize = self.senders;
        self.senders = before - 1;
        if before == 1 {
            self.wake_rx()
        } else {
            None
        }
    }

    /// Check whether all senders are gone.
    pub fn tx_closed(&self) -> (r: bool)
        ensures
            r == (self@.senders == 0),
    {
        self.senders == 0
    }

    /// Check that no place is reserved.
    pub fn is_empty(&self) -> (r: bool)
        requires
            self.wf(),
        ensures
            r == (self@.items.len() == 0),
    {
        proof {
            lemma_index_bits(self.read_index);
            lemma_index_bits(self.write_index);
            crate::channel::block::lemma_position_order(self.head(), self.tail());
        }
        self.read_index >> SHIFT == self.write_index >> SHIFT
    }

    /// Take the waker, if there is one and the reader is not busy leaving it.
    fn wake_rx(&mut self) -> (r: Option<W>)
        requires
            old(self).wf(),
        ensures
            final(self).wf(),
            r == due(old(self)@.waker),
            final(self)@ == (QueueView::<T, W> {
                waker: after_wake(old(self)@.waker),
                ..old(self)@
            }),
    {
        match self.waker.try_take() {
            Ok(waker) => Some(waker),
            Err(_) => None,
        }
    }

    /// Take apart a queue that nobody uses any more. Returns the values that
    /// were not read, in order.
    pub fn drop(self) -> (r: Vec<T>)
        requires
            self.wf(),
            forall|i: int| 0 <= i < self@.items.len() ==> (#[trigger] self@.items[i]) is Some,
        ensures
            r@.len() == self@.items.len(),
            forall|i: int| 0 <= i < r@.len() ==> Some(#[trigger] r@[i]) == self@.items[i],
    {
        let mut queue: Self = self;
        let mut values: Vec<T> = Vec::new();
        let ghost all = queue@.items;
        while !queue.is_empty()
            invariant
                queue.wf(),
                all == self@.items,
                queue@.items == all.skip(values@.len() as int),
                values@.len() <= all.len(),
                forall|i: int| 0 <= i < all.len() ==> (#[trigger] all[i]) is Some,
                forall|i: int| 0 <= i < values@.len() ==> Some(#[trigger] values@[i]) == all[i],
            decreases queue@.items.len(),
        {
            proof {
                assert(queue@.items[0] == all[values@.len() as int]);
            }
            if let Some(value) = queue.pop() {
                values.push(value);
                proof {
                    assert(queue@.items =~= all.skip(values@.len() as int));
                }
            }
        }
        values
    }
}

/// The queue after a sender was dropped.
pub open spec fn after_dec<T, W>(q: QueueView<T, W>) -> QueueView<T, W> {
    QueueView {
        senders: q.senders - 1,
        waker: if q.senders == 1 {
            after_wake(q.waker)
        } else {
            q.waker
        },
        ..q
    }
}

/// A sender.
#[derive(Debug, PartialEq, Eq)]
pub struct Sender {
    closed: bool,
}

impl View for Sender {
    type V = bool;

    /// Whether the sender was closed.
    closed spec fn view(&self) -> bool {
        self.closed
    }
}

impl Sender {
    /// The sender that a new queue counts.
    pub fn new() -> (r: Self)
        ensures
            !r@,
    {
        Sender { closed: false }
    }

    /// Stop sending. Returns the waker that is due.
    pub fn close<T, W>(&mut self, queue: &mut Queue<T, W>) -> (r: Option<W>)
        requires
            old(queue).wf(),
            !old(self)@ ==> old(queue)@.senders > 0,
        ensures
            final(queue).wf(),
            final(self)@,
            r == (if !old(self)@ && old(queue)@.senders == 1 {
                due(old(queue)@.waker)
            } else {
                None
            }),
            final(queue)@ == (if old(self)@ {
                old(queue)@
            } else {
                after_dec(old(queue)@)
            }),
    {
        if !self.closed {
            self.closed = true;
            queue.dec_senders()
        } else {
            None
        }
    }

    /// Send a value.
    ///
    /// Returns the value if the reader has closed the queue, and the waker that
    /// is due.
    pub fn send<T, W>(&self, queue: &mut Queue<T, W>, value: T) -> (r: (Result<(), T>, Option<W>))
        requires
            old(queue).wf(),
            old(queue)@.closed || has_room(old(queue)@),
        ensures
            final(queue).wf(),
            r.0 == (if old(queue)@.closed {
                Err::<(), T>(value)
            } else {
                Ok::<(), T>(())
            }),
            r.1 == (if old(queue)@.closed {
                None
            } else {
                due(old(queue)@.waker)
            }),
            final(queue)@ == after_push(old(queue)@, value),
    {
        match queue.push(value) {
            (Some(result), waker) => (Err(result), waker),
            (None, waker) => (Ok(()), waker),
        }
    }

    /// Create another sender.
    pub fn clone<T, W>(&self, queue: &mut Queue<T, W>) -> (r: Self)
        requires
            old(queue).wf(),
            old(queue)@.senders < usize::MAX,
        ensures
            final(queue).wf(),
            !r@,
            final(queue)@ == (QueueView::<T, W> {
                senders: old(queue)@.senders + 1,
                ..old(queue)@
            }),
    {
        queue.inc_senders();
        Self::new()
    }

    /// Check whether a value can be sent, which it always can.
    pub fn poll_ready<T>(&mut self) -> (r: Poll<Result<(), T>>)
        ensures
            final(self)@ == old(self)@,
            r == Poll::Ready(Ok::<(), T>(())),
    {
        Poll::Ready(Ok(()))
    }

    /// Send a value, as [`Sender::send`] does.
    pub fn start_send<T, W>(&mut self, queue: &mut Queue<T, W>, msg: T) -> (r: (Result<(), T>, Option<W>))
        requires
            old(queue).wf(),
            old(queue)@.closed || has_room(old(queue)@),
        ensures
            final(queue).wf(),
            final(self)@ == old(self)@,
            r.0 == (if old(queue)@.closed {
                Err::<(), T>(msg)
            } else {
                Ok::<(), T>(())
            }),
            r.1 == (if old(queue)@.closed {
                None
            } else {
                due(old(queue)@.waker)
            }),
            final(queue)@ == after_push(old(queue)@, msg),
    {
        self.send(queue, msg)
    }

    /// Check whether the values have left the sender, which they always have.
    pub fn poll_flush<T>(&mut self) -> (r: Poll<Result<(), T>>)
        ensures
            final(self)@ == old(self)@,
            r == Poll::Ready(Ok::<(), T>(())),
    {
        Poll::Ready(Ok(()))
    }

    /// Stop sending, as [`Sender::close`] does. Returns the waker that is due, too.
    pub fn poll_close<T, W>(&mut self, queue: &mut Queue<T, W>) -> (r: (
        Poll<Result<(), T>>,
        Option<W>,
    ))
        requires
            old(queue).wf(),
            !old(self)@ ==> old(queue)@.senders > 0,
        ensures
            final(queue).wf(),
            final(self)@,
            r.0 == Poll::Ready(Ok::<(), T>(())),
            r.1 == (if !old(self)@ && old(queue)@.senders == 1 {
                due(old(queue)@.waker)
            } else {
                None
            }),
            final(queue)@ == (if old(self)@ {
                old(queue)@
            } else {
                after_dec(old(queue)@)
            }),
    {
        let due: Option<W> = self.close(queue);
        (Poll::Ready(Ok(())), due)
    }

    /// Drop the sender. Returns the waker that is due.
    pub fn drop<T, W>(self, queue: &mut Queue<T, W>) -> (r: Option<W>)
        requires
            old(queue).wf(),
            !self@ ==> old(queue)@.senders > 0,
        ensures
            final(queue).wf(),
            r == (if !self@ && old(queue)@.senders == 1 {
                due(old(queue)@.waker)
            } else {
                None
            }),
            final(queue)@ == (if self@ {
                old(queue)@
            } else {
                after_dec(old(queue)@)
            }),
    {
        let mut sender: Self = self;
        sender.close(queue)
    }
}

/// The reader.
#[derive(Debug, PartialEq, Eq)]
pub struct Receiver {
    granted: (),
}

/// Create a queue with one sender and the reader.
pub fn unbounded<T, W>() -> (r: (Queue<T, W>, Sender, Receiver))
    ensures
        r.0.wf(),
        r.0@ == (QueueView::<T, W> {
            items: Seq::empty(),
            popped: 0,
            closed: false,
            senders: 1,
            waker: LockState::Empty,
        }),
        !r.1@,
{
    (Queue::new(), Sender::new(), Receiver::new())
}

impl Receiver {
    /// The reader of a new queue.
    pub fn new() -> (r: Self) {
        Receiver { granted: () }
    }

    /// Close the queue. Returns `true` if it was open.
    pub fn close<T, W>(&self, queue: &mut Queue<T, W>) -> (r: bool)
        requires
            old(queue).wf(),
        ensures
            final(queue).wf(),
            r == !old(queue)@.closed,
            final(queue)@ == (QueueView::<T, W> { closed: true, ..old(queue)@ }),
    {
        queue.close_rx()
    }

    /// Read the first value, if it is written.
    pub fn try_recv<T, W>(&self, queue: &mut Queue<T, W>) -> (r: Option<T>)
        requires
            old(queue).wf(),
        ensures
            final(queue).wf(),
            r == front(old(queue)@),
            final(queue)@ == after_pop(old(queue)@),
    {
        queue.pop()
    }

    /// Read the first value; if there is none, leave a waker.
    ///
    /// Returns nothing when all senders are gone and nothing is left, and the
    /// waker that is due.
    pub fn poll_next<T, W>(&mut self, queue: &mut Queue<T, W>, waker: W) -> (r: (
        Poll<Option<T>>,
        Option<W>,
    ))
        requires
            old(queue).wf(),
            front(old(queue)@) is None ==> crate::option_lock::lockable(old(queue)@.waker),
        ensures
            final(queue).wf(),
            r.0 == (match front(old(queue)@) {
                Some(v) => Poll::Ready(Some(v)),
                None => if old(queue)@.items.len() == 0 && old(queue)@.senders == 0 {
                    Poll::Ready(None)
                } else {
                    Poll::Pending
                },
            }),
            r.1 == (if front(old(queue)@) is None && old(queue)@.items.len() > 0 {
                Some(waker)
            } else {
                None
            }),
            final(queue)@ == after_pop_wake(old(queue)@, Some(waker)),
    {
        match queue.pop_wake(Some(waker)) {
            (Ok(Some(value)), due) => (Poll::Ready(Some(value)), due),
            (Ok(None), due) => (Poll::Pending, due),
            (Err(_), due) => (Poll::Ready(None), due),
        }
    }

    /// Read the values, and wait for more.
    pub fn iter(&mut self) -> (r: Drain)
        ensures
            r@,
    {
        Drain::new(true)
    }

    /// Read the values that are there.
    pub fn try_iter(&mut self) -> (r: Drain)
        ensures
            !r@,
    {
        Drain::new(false)
    }

    /// Close the queue, and read the values that are there.
    pub fn into_iter<T, W>(self, queue: &mut Queue<T, W>) -> (r: Drain)
        requires
            old(queue).wf(),
        ensures
            final(queue).wf(),
            r@,
            final(queue)@ == (QueueView::<T, W> { closed: true, ..old(queue)@ }),
    {
        let mut receiver: Self = self;
        let values: Drain = receiver.iter();
        receiver.drop(queue);
        values
    }

    /// Drop the reader, which closes the queue.
    pub fn drop<T, W>(self, queue: &mut Queue<T, W>)
        requires
            old(queue).wf(),
        ensures
            final(queue).wf(),
            final(queue)@ == (QueueView::<T, W> { closed: true, ..old(queue)@ }),
    {
        let _ = queue.close_rx();
    }
}

/// The queue after the reader asked for a number of values.
pub open spec fn after_pops<T, W>(q: QueueView<T, W>, n: nat) -> QueueView<T, W>
    decreases n,
{
    if n == 0 {
        q
    } else {
        after_pop(after_pops(q, (n - 1) as nat))
    }
}

/// Check that every place that was reserved is written.
pub open spec fn all_written<T, W>(q: QueueView<T, W>) -> bool {
    forall|i: int| 0 <= i < q.items.len() ==> (#[trigger] q.items[i]) is Some
}

/// Values are read in the order of the queue.
pub proof fn law_read_in_order<T, W>(q: QueueView<T, W>, n: nat)
    requires
        all_written(q),
        n <= q.items.len(),
    ensures
        after_pops(q, n).items == q.items.skip(n as int),
        n < q.items.len() ==> front(after_pops(q, n)) == q.items[n as int],
    decreases n,
{
    if n == 0 {
        assert(q.items.skip(0) =~= q.items);
    } else {
        law_read_in_order(q, (n - 1) as nat);
        let before = after_pops(q, (n - 1) as nat);
        assert(before.items[0] == q.items[n - 1]);
        assert(before.items.drop_first() =~= q.items.skip(n as int));
    }
}

/// First in, first out: a value that is sent is read after those that were in
/// the queue before it, and before any that is sent later.
pub proof fn law_first_in_first_out<T, W>(q: QueueView<T, W>, value: T, later: T)
    requires
        all_written(q),
        !q.closed,
    ensures
        ({
            let sent = after_push(after_push(q, value), later);
            let n = q.items.len();
            &&& front(after_pops(sent, n)) == Some(value)
            &&& front(after_pops(sent, n + 1)) == Some(later)
            &&& front(after_pops(sent, n + 2)) is None
        }),
{
    let sent = after_push(after_push(q, value), later);
    assert(sent.items == q.items.push(Some(value)).push(Some(later)));
    law_read_in_order(sent, q.items.len());
    law_read_in_order(sent, q.items.len() + 1);
    law_read_in_order(sent, q.items.len() + 2);
}

/// Sending is reserving a place and writing to it, whatever happens to other
/// places in between: writing to two places in either order is the same.
pub proof fn law_writes_commute<T, W>(q: QueueView<T, W>, a: int, x: T, b: int, y: T)
    requires
        reserved(q, a),
        reserved(q, b),
        a != b,
    ensures
        reserved(after_commit(q, a, x), b),
        after_commit(after_commit(q, a, x), b, y).items == after_commit(
            after_commit(q, b, y),
            a,
            x,
        ).items,
{
    assert(after_commit(after_commit(q, a, x), b, y).items =~= after_commit(
        after_commit(q, b, y),
        a,
        x,
    ).items);
}

/// A reserved place stays reserved until it is written: reading never passes
/// it, and reserving more places does not disturb it.
pub proof fn law_reservation_holds<T, W>(q: QueueView<T, W>, number: int)
    requires
        reserved(q, number),
    ensures
        reserved(after_pop(q), number),
        reserved(after_reserve(q), number),
{
}

/// A value that was sent through its two halves is where sending at once would
/// have put it.
pub proof fn law_two_halves<T, W>(q: QueueView<T, W>, value: T)
    requires
        !q.closed,
    ensures
        after_commit(after_reserve(q), q.popped + q.items.len(), value) == after_push(q, value),
{
    let halves = after_commit(after_reserve(q), q.popped + q.items.len(), value);
    assert(halves.items =~= q.items.push(Some(value)));
}

/// No waker is lost: a reader that found nothing and left its waker is woken by
/// the next value, and when the last sender is dropped; one that saw a place
/// reserved has taken its waker back to wake itself.
pub proof fn law_no_lost_wakeup<T, W>(q: QueueView<T, W>, waker: W)
    requires
        front(q) is None,
    ensures
        q.items.len() == 0 ==> due(after_pop_wake(q, Some(waker)).waker) == Some(waker),
        q.items.len() > 0 ==> due(after_register(q.waker, Some(waker))) == Some(waker),
        q.items.len() > 0 ==> after_pop_wake(q, Some(waker)).waker is Empty,
{
}

/// Closing the queue refuses further values and keeps those that are there, which
/// can still be read. The queue does not open again, whatever is done to it.
pub proof fn law_close_keeps_values<T, W>(q: QueueView<T, W>, value: T, number: int)
    ensures
        ({
            let closed = QueueView { closed: true, ..q };
            &&& after_push(closed, value) == closed
            &&& front(closed) == front(q)
            &&& closed.items == q.items
            &&& after_pop(closed) == (QueueView { closed: true, ..after_pop(q) })
            &&& after_commit(closed, number, value).closed
            &&& after_dec(closed).closed
            &&& QueueView { closed: true, ..closed } == closed
        }),
{
}

/// A value that is sent wakes the reader, whatever else is in the queue, and once. So does
/// the loss of the last sender, and no other.
pub proof fn law_woken_once<T, W>(q: QueueView<T, W>, waker: W, value: T)
    requires
        q.waker == LockState::Available(waker),
    ensures
        due(q.waker) == Some(waker),
        !q.closed ==> after_push(q, value).waker is Empty,
        q.closed ==> after_push(q, value).waker == q.waker,
        q.senders == 1 ==> after_dec(q).waker is Empty,
        q.senders != 1 ==> after_dec(q).waker == q.waker,
        after_dec(q).senders == q.senders - 1,
        after_dec(q).items == q.items,
        due(LockState::<W>::Empty) is None,
{
}

/// A reader gets the value in front and nothing else changes, whether or not it would
/// wait. One that finds nothing changes nothing but the waker that it leaves.
pub proof fn law_reading_takes_the_front<T, W>(q: QueueView<T, W>, waker: Option<W>)
    ensures
        q.items.len() > 0 && q.items[0] is Some ==> {
            &&& front(q) == q.items[0]
            &&& after_pop_wake(q, waker) == after_pop(q)
            &&& after_pop(q) == (QueueView {
                items: q.items.drop_first(),
                popped: q.popped + 1,
                ..q
            })
        },
        q.items.len() == 0 || q.items[0] is None ==> {
            &&& front(q) is None
            &&& after_pop(q) == q
            &&& after_pop_wake(q, waker) == (QueueView {
                waker: after_pop_wake(q, waker).waker,
                ..q
            })
        },
{
}

} // verus!
