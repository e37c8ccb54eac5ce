//! A channel whose reader can be one of several kinds of loop.
//!
//! What is sent lies in a table; its places travel through the queue.

use vstd::prelude::*;

use crate::poll::Poll;
use crate::queue::{PopFailure, PushFailure, Queue};

verus! {

/// The channel has no more values.
#[derive(Clone, Copy, Debug, PartialEq, Eq, Structural)]
pub struct Closed;

/// A channel.
#[verifier::ext_equal]
pub ghost struct ChannelView<T> {
    /// What was sent and not received, the first in front.
    pub items: Seq<T>,
    /// How much the channel was made for, unless it is unbounded.
    pub limit: Option<usize>,
    /// Whether the channel was closed.
    pub closed: bool,
    /// Whether somebody listens for values.
    pub listening: bool,
}

/// Check that a channel takes in another value.
pub open spec fn accepts<T>(c: ChannelView<T>) -> bool {
    !c.closed && (c.limit is Some ==> c.items.len() < c.limit->0)
}

/// A channel after a value was sent.
pub open spec fn after_send<T>(c: ChannelView<T>, value: T) -> ChannelView<T> {
    if accepts(c) {
        ChannelView { items: c.items.push(value), ..c }
    } else {
        c
    }
}

/// A channel after somebody looked for a value.
pub open spec fn after_next<T>(c: ChannelView<T>) -> ChannelView<T> {
    if c.items.len() > 0 {
        ChannelView { items: c.items.drop_first(), ..c }
    } else {
        c
    }
}

/// What both ends share.
pub struct Channel<T> {
    queue: Queue<usize>,
    slots: Vec<Option<T>>,
    free: Vec<usize>,
    listening: bool,
}

/// What a reader finds.
#[derive(Clone, Copy, Debug, PartialEq, Eq)]
pub enum Next<T> {
    /// The next value.
    Item(T),
    /// There are no more values.
    End,
    /// Wait to be notified, and look again.
    Park,
}

/// What a reader finds.
pub open spec fn next_of<T>(c: ChannelView<T>) -> Next<T> {
    if c.items.len() > 0 {
        Next::Item(c.items[0])
    } else if c.closed {
        Next::End
    } else {
        Next::Park
    }
}

impl<T> View for Channel<T> {
    type V = ChannelView<T>;

    closed spec fn view(&self) -> ChannelView<T> {
        ChannelView {
            items: Seq::new(
                self.queue.items().len(),
                |i: int| self.slots@[self.queue.items()[i] as int]->0,
            ),
            limit: self.queue.limit(),
            closed: self.queue.is_closed(),
            listening: self.listening,
        }
    }
}

impl<T> Channel<T> {
    /// Every place that is in the queue has a value, every place that is free has
    /// none, and no place occurs twice.
    pub closed spec fn wf(&self) -> bool {
        let used = self.queue.items();
        &&& forall|i: int|
            0 <= i < used.len() ==> (#[trigger] used[i]) < self.slots@.len()
                && self.slots@[used[i] as int] is Some
        &&& forall|i: int, j: int|
            0 <= i < j < used.len() ==> #[trigger] used[i] != #[trigger] used[j]
        &&& forall|i: int|
            0 <= i < self.free@.len() ==> (#[trigger] self.free@[i]) < self.slots@.len()
                && self.slots@[self.free@[i] as int] is None
        &&& forall|i: int, j: int|
            0 <= i < j < self.free@.len() ==> #[trigger] self.free@[i] != #[trigger] self.free@[j]
    }

    fn new(queue: Queue<usize>) -> (r: Self)
        requires
            queue.items() == Seq::<usize>::empty(),
        ensures
            r.wf(),
            r@ == (ChannelView::<T> {
                items: Seq::empty(),
                limit: queue.limit(),
                closed: queue.is_closed(),
                listening: false,
            }),
    {
        let r = Channel { queue, slots: Vec::new(), free: Vec::new(), listening: false };
        assert(r@.items =~= Seq::<T>::empty());
        r
    }

    fn push(&mut self, value: T) -> (r: Result<(), T>)
        requires
            old(self).wf(),
        ensures
            final(self).wf(),
            r == (if accepts(old(self)@) {
                Ok::<(), T>(())
            } else {
                Err::<(), T>(value)
            }),
            final(self)@ == after_send(old(self)@, value),
    {
        let ghost used = self.queue.items();
        let slot: usize = match self.free.pop() {
            Some(slot) => slot,
            None => {
                let slot: usize = self.slots.len();
                self.slots.push(None);
                slot
            },
        };
        assert(forall|i: int| 0 <= i < used.len() ==> #[trigger] used[i] != slot);
        match self.queue.push(slot) {
            Ok(()) => {
                self.slots[slot] = Some(value);
                proof {
                    let now = self.queue.items();
                    assert(now =~= used.push(slot));
                    assert forall|i: int| 0 <= i < used.len() implies self.slots@[(
                    #[trigger] used[i]) as int] == old(self).slots@[used[i] as int] by {
                        assert(used[i] != slot);
                    }
                    assert(self@.items =~= old(self)@.items.push(value));
                }
                Ok(())
            },
            Err(PushFailure::Closed) | Err(PushFailure::Full) => {
                self.free.push(slot);
                assert(self@.items =~= old(self)@.items);
                Err(value)
            },
        }
    }

    fn pop(&mut self) -> (r: Next<T>)
        requires
            old(self).wf(),
        ensures
            final(self).wf(),
            r == next_of(old(self)@),
            final(self)@ == after_next(old(self)@),
    {
        let ghost used = self.queue.items();
        match self.queue.pop() {
            Ok(slot) => {
                let ghost left = self.queue.items();
                assert(forall|i: int| 0 <= i < left.len() ==> #[trigger] left[i] == used[i + 1]);
                assert(slot == used[0]);
                assert(forall|i: int| 0 <= i < left.len() ==> #[trigger] left[i] != slot);
                let found: Option<T> = self.slots[slot].take();
                self.free.push(slot);
                proof {
                    assert forall|i: int| 0 <= i < left.len() implies self.slots@[(
                    #[trigger] left[i]) as int] == old(self).slots@[left[i] as int] by {
                        assert(left[i] != slot);
                    }
                    assert(self@.items =~= old(self)@.items.drop_first());
                }
                match found {
                    Some(item) => Next::Item(item),
                    None => vstd::pervasive::unreached(),
                }
            },
            Err(PopFailure::Closed) => Next::End,
            Err(PopFailure::Empty) => Next::Park,
        }
    }
}

/// Create a channel that is made for a number of values.
pub fn bounded<T>(cap: usize) -> (r: (Channel<T>, Sender, Receiver))
    requires
        0 < cap,
        cap * 64 <= isize::MAX,
    ensures
        r.0.wf(),
        r.0@ == (ChannelView::<T> {
            items: Seq::empty(),
            limit: Some(cap),
            closed: false,
            listening: false,
        }),
{
    pair(Queue::bounded(cap))
}

/// Create a channel without a limit.
pub fn unbounded<T>() -> (r: (Channel<T>, Sender, Receiver))
    ensures
        r.0.wf(),
        r.0@ == (ChannelView::<T> {
            items: Seq::empty(),
            limit: None,
            closed: false,
            listening: false,
        }),
{
    pair(Queue::unbounded())
}

fn pair<T>(queue: Queue<usize>) -> (r: (Channel<T>, Sender, Receiver))
    requires
        queue.items() == Seq::<usize>::empty(),
    ensures
        r.0.wf(),
        r.0@ == (ChannelView::<T> {
            items: Seq::empty(),
            limit: queue.limit(),
            closed: queue.is_closed(),
            listening: false,
        }),
{
    (Channel::new(queue), Sender { granted: () }, Receiver { granted: () })
}

/// The end that sends.
#[derive(Debug, PartialEq, Eq)]
pub struct Sender {
    granted: (),
}

/// The end that receives.
#[derive(Debug, PartialEq, Eq)]
pub struct Receiver {
    granted: (),
}

/// The right to listen for values.
#[derive(Debug, PartialEq, Eq)]
pub struct IterReceiver {
    granted: (),
}

impl Clone for Sender {
    fn clone(&self) -> (r: Self) {
        Sender { granted: () }
    }
}

impl Sender {
    /// Send a value. It comes back if the channel is closed or full.
    pub fn send<T>(&self, channel: &mut Channel<T>, value: T) -> (r: Result<(), T>)
        requires
            old(channel).wf(),
        ensures
            final(channel).wf(),
            r == (if accepts(old(channel)@) {
                Ok::<(), T>(())
            } else {
                Err::<(), T>(value)
            }),
            final(channel)@ == after_send(old(channel)@, value),
    {
        channel.push(value)
    }
}

impl Receiver {
    /// Start to listen. Nobody else may be listening.
    pub fn iter<T>(&mut self, channel: &mut Channel<T>) -> (r: IterReceiver)
        requires
            old(channel).wf(),
            !old(channel)@.listening,
        ensures
            final(channel).wf(),
            final(channel)@ == (ChannelView::<T> { listening: true, ..old(channel)@ }),
    {
        channel.listening = true;
        assert(channel@.items =~= old(channel)@.items);
        IterReceiver { granted: () }
    }

    /// Give up at once. Nobody may be listening.
    pub fn recv<T>(&mut self, channel: &mut Channel<T>) -> (r: Result<T, Closed>)
        requires
            old(channel).wf(),
            !old(channel)@.listening,
        ensures
            final(channel).wf(),
            r == Err::<T, Closed>(Closed),
            final(channel)@ == old(channel)@,
    {
        Err(Closed)
    }
}

impl IterReceiver {
    /// Look for the next value.
    pub fn next<T>(&mut self, channel: &mut Channel<T>) -> (r: Next<T>)
        requires
            old(channel).wf(),
        ensures
            final(channel).wf(),
            r == next_of(old(channel)@),
            final(channel)@ == after_next(old(channel)@),
    {
        channel.pop()
    }

    /// Look for the next value, and say whether it is worth looking again.
    pub fn poll_next<T>(&mut self, channel: &mut Channel<T>) -> (r: Poll<Option<T>>)
        requires
            old(channel).wf(),
        ensures
            final(channel).wf(),
            r == (match next_of(old(channel)@) {
                Next::Item(item) => Poll::Ready(Some(item)),
                Next::End => Poll::Ready(None),
                Next::Park => Poll::Pending,
            }),
            final(channel)@ == after_next(old(channel)@),
    {
        match channel.pop() {
            Next::Item(item) => Poll::Ready(Some(item)),
            Next::End => Poll::Ready(None),
            Next::Park => Poll::Pending,
        }
    }

    /// Stop listening.
    pub fn drop<T>(self, channel: &mut Channel<T>)
        requires
            old(channel).wf(),
        ensures
            final(channel).wf(),
            final(channel)@ == (ChannelView::<T> { listening: false, ..old(channel)@ }),
    {
        channel.listening = false;
        assert(channel@.items =~= old(channel)@.items);
    }
}

/// A channel after somebody looked for a number of values.
pub open spec fn after_nexts<T>(c: ChannelView<T>, n: nat) -> ChannelView<T>
    decreases n,
{
    if n == 0 {
        c
    } else {
        after_next(after_nexts(c, (n - 1) as nat))
    }
}

/// Values are received in the order of the channel, each of them once.
pub proof fn law_received_in_order<T>(c: ChannelView<T>, n: nat)
    requires
        n <= c.items.len(),
    ensures
        after_nexts(c, n).items == c.items.skip(n as int),
        n < c.items.len() ==> next_of(after_nexts(c, n)) == Next::Item(c.items[n as int]),
    decreases n,
{
    if n == 0 {
        assert(c.items.skip(0) =~= c.items);
    } else {
        law_received_in_order(c, (n - 1) as nat);
        let before = after_nexts(c, (n - 1) as nat);
        assert(before.items.drop_first() =~= c.items.skip(n as int));
    }
}

/// First in, first out: a value that is sent is received after those that were
/// there before it.
pub proof fn law_first_in_first_out<T>(c: ChannelView<T>, value: T)
    requires
        accepts(c),
    ensures
        next_of(after_nexts(after_send(c, value), c.items.len())) == Next::Item(value),
        after_nexts(after_send(c, value), c.items.len() + 1).items.len() == 0,
{
    let sent = after_send(c, value);
    law_received_in_order(sent, c.items.len());
    law_received_in_order(sent, c.items.len() + 1);
}

/// A channel takes a value in unless it was closed, or holds as many as it was made for.
/// What it does not take in changes nothing.
pub proof fn law_takes_in_what_it_was_made_for<T>(c: ChannelView<T>, value: T)
    ensures
        ({
            let full = c.limit matches Some(limit) && c.items.len() >= limit;
            let post = after_send(c, value);
            &&& !c.closed && !full ==> post.items == c.items.push(value) && post.limit == c.limit
                && !post.closed && post.listening == c.listening
            &&& c.closed || full ==> post == c
            &&& accepts(c) == (!c.closed && !full)
        }),
{
}

/// A reader finds a value as long as there is one. After the last one it waits, unless the
/// channel was closed; looking in vain changes nothing.
pub proof fn law_reader_waits_for_values<T>(c: ChannelView<T>)
    ensures
        c.items.len() > 0 ==> next_of(c) == Next::Item(c.items[0]) && after_next(c).items
            == c.items.drop_first() && after_next(c).closed == c.closed && after_next(c).limit
            == c.limit,
        c.items.len() == 0 && c.closed ==> next_of(c) is End,
        c.items.len() == 0 && !c.closed ==> next_of(c) is Park,
        c.items.len() == 0 ==> after_next(c) == c,
{
}

} // verus!
