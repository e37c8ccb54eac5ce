//! One-shot replies to those who wait.
//!
//! The table holds the channels. The side that replies can be cloned; whichever
//! clone comes first replies or calls the wait off. A place in the table is never
//! used again.

use vstd::prelude::*;

use crate::dropshot::{
    after_attempt, after_cancel_recv, after_cancel_send, after_finish, after_load, attempt,
    channel, taken_by_cancel, Attempt, Canceled, Inner, Receiver, SendState, Sender, Shot,
};
use crate::notify::{due, NotifyState};
use crate::option_lock::OptionLock;
use crate::poll::Poll;
use crate::util::debug::{struct_text, structure};

verus! {

broadcast use OptionLock::lemma_holding;

/// A channel for one reply.
#[verifier::ext_equal]
pub ghost struct WaitView<X, W> {
    /// Whether nobody has replied or called the wait off.
    pub open: bool,
    /// The channel.
    pub shot: Shot<X, W>,
}

/// While nobody has replied, the channel is fresh on that side.
pub open spec fn wait_inv<X, W>(w: WaitView<X, W>) -> bool {
    &&& !w.shot.registered
    &&& w.open ==> w.shot.send is Init && w.shot.data is None
    &&& !w.open ==> !(w.shot.send is Init) && w.shot.recv is Idle
}

/// A channel on which nothing has happened.
pub open spec fn fresh_wait<X, W>() -> WaitView<X, W> {
    WaitView {
        open: true,
        shot: Shot {
            send: SendState::Init,
            registered: false,
            recv: NotifyState::Waiting,
            cancel: NotifyState::Waiting,
            data: None,
        },
    }
}

/// The channel after the wait was called off.
pub open spec fn after_cancel<X, W>(w: WaitView<X, W>) -> WaitView<X, W> {
    if w.open {
        WaitView { open: false, shot: after_cancel_send(w.shot) }
    } else {
        w
    }
}

/// The channel after a reply.
pub open spec fn after_reply<X, W>(w: WaitView<X, W>, reply: X) -> WaitView<X, W> {
    if w.open {
        WaitView { open: false, shot: after_finish(after_load(w.shot, reply)) }
    } else {
        w
    }
}

/// The channel after somebody looked for the reply.
pub open spec fn after_poll_wait<X, W>(w: WaitView<X, W>, waker: W) -> WaitView<X, W> {
    WaitView { shot: after_attempt(w.shot, Some(waker)), ..w }
}

/// The channel after nobody waits for the reply any more.
pub open spec fn after_leave<X, W>(w: WaitView<X, W>) -> WaitView<X, W> {
    WaitView { shot: after_cancel_recv(w.shot), ..w }
}

/// Check that a reply arrives.
pub open spec fn arrives<X, W>(w: WaitView<X, W>) -> bool {
    w.open && !(w.shot.recv is Idle)
}

/// The waker that is due when there is a reply, or there will be none.
pub open spec fn woken_by<X, W>(w: WaitView<X, W>) -> Option<W> {
    if w.open {
        due(w.shot.recv)
    } else {
        None
    }
}

/// Check that the side that waits has not gone.
pub open spec fn attended<X, W>(w: WaitView<X, W>) -> bool {
    !(attempt(w.shot, true) is Again)
}

/// The side that replies, by its place in the table.
#[derive(Clone, Copy, Debug, PartialEq, Eq, Structural)]
pub struct WaitResponder {
    id: usize,
}

/// The side that waits, by its place in the table.
#[derive(Debug, PartialEq, Eq)]
pub struct Waiter {
    id: usize,
}

struct Wait<X, W> {
    sender: OptionLock<Sender>,
    inner: Inner<X, W>,
}

impl<X, W> Wait<X, W> {
    spec fn view(&self) -> WaitView<X, W> {
        WaitView { open: self.sender@ is Available, shot: self.inner@ }
    }

    spec fn wf(&self) -> bool {
        &&& wait_inv(self@)
        &&& self.sender@ is Available || self.sender@ is Empty
    }
}

/// The channels on which replies are awaited.
pub struct Waits<X, W> {
    waits: Vec<Wait<X, W>>,
}

impl<X, W> View for Waits<X, W> {
    type V = Seq<WaitView<X, W>>;

    closed spec fn view(&self) -> Seq<WaitView<X, W>> {
        Seq::new(self.waits@.len(), |i: int| self.waits@[i]@)
    }
}

impl WaitResponder {
    /// The place of the channel.
    pub closed spec fn id(self) -> int {
        self.id as int
    }

    /// The replying side of the channel at a place.
    pub closed spec fn at(id: usize) -> WaitResponder {
        WaitResponder { id }
    }

    /// The side that replies is determined by its place.
    pub broadcast proof fn lemma_at(id: usize)
        ensures
            (#[trigger] WaitResponder::at(id)).id() == id,
    {
    }

    /// Two sides that reply are the same if they have the same place.
    pub broadcast proof fn lemma_same(a: WaitResponder, b: WaitResponder)
        requires
            #[trigger] a.id() == #[trigger] b.id(),
        ensures
            a == b,
    {
    }

    /// The side that replies in writing.
    pub fn debug<X, W>(self, waits: &Waits<X, W>, alternate: bool) -> (r: String)
        requires
            waits.wf(),
            awaited(waits@, self),
        ensures
            r@ == struct_text(
                "WaitResponder"@,
                "is_canceled"@,
                alternate,
                if waits@[self.id()].open {
                    "false"@
                } else {
                    "true"@
                },
            ),
    {
        let canceled: &str = if waits.is_canceled(self) {
            "true"
        } else {
            "false"
        };
        structure("WaitResponder", "is_canceled", alternate, canceled)
    }

    /// The number that stands for the replying side.
    pub fn number(self) -> (r: usize)
        ensures
            r == self.id(),
            WaitResponder::at(r) == self,
    {
        self.id
    }

    /// The replying side that a number stands for.
    pub fn numbered(id: usize) -> (r: Self)
        ensures
            r == WaitResponder::at(id),
    {
        WaitResponder { id }
    }
}

impl Waiter {
    /// The side that waits in writing.
    pub fn debug(&self) -> (r: String)
        ensures
            r@ == "Waiter"@,
    {
        "Waiter".to_owned()
    }

    /// The place of the channel.
    pub closed spec fn id(self) -> int {
        self.id as int
    }
}

/// Check that the channel of a side that replies is in the table.
pub open spec fn awaited<X, W>(waits: Seq<WaitView<X, W>>, to: WaitResponder) -> bool {
    0 <= to.id() < waits.len()
}

impl<X, W> Waits<X, W> {
    /// Every channel is as it should be.
    pub closed spec fn wf(&self) -> bool {
        forall|i: int| 0 <= i < self.waits@.len() ==> (#[trigger] self.waits@[i]).wf()
    }

    /// Every channel is as it should be.
    pub broadcast proof fn lemma_wf(&self, i: int)
        requires
            self.wf(),
            0 <= i < self@.len(),
        ensures
            wait_inv(#[trigger] self@[i]),
    {
        assert(self.waits@[i].wf());
    }

    /// Create a table without channels.
    pub fn new() -> (r: Self)
        ensures
            r.wf(),
            r@ == Seq::<WaitView<X, W>>::empty(),
    {
        Waits { waits: Vec::new() }
    }

    /// Create a channel.
    pub fn waiter_pair(&mut self) -> (r: (WaitResponder, Waiter))
        requires
            old(self).wf(),
            old(self)@.len() < usize::MAX,
        ensures
            final(self).wf(),
            r.0.id() == old(self)@.len(),
            r.1.id() == old(self)@.len(),
            final(self)@ == old(self)@.push(fresh_wait()),
    {
        let id: usize = self.waits.len();
        let (inner, sender, _): (Inner<X, W>, Sender, Receiver) = channel();
        let wait = Wait { sender: OptionLock::from(sender), inner };
        self.waits.push(wait);
        assert(self@ =~= old(self)@.push(fresh_wait()));
        (WaitResponder { id }, Waiter { id })
    }

    /// Call a wait off. Returns the waker that is due.
    pub fn cancel(&mut self, to: WaitResponder) -> (r: Option<W>)
        requires
            old(self).wf(),
            awaited(old(self)@, to),
        ensures
            final(self).wf(),
            r == woken_by(old(self)@[to.id()]),
            final(self)@ == old(self)@.update(to.id(), after_cancel(old(self)@[to.id()])),
    {
        assert(self.waits@[to.id as int].wf());
        let wait: &mut Wait<X, W> = &mut self.waits[to.id];
        let woken: Option<W> = match wait.sender.try_take() {
            Ok(sender) => sender.drop(&mut wait.inner),
            Err(_) => None,
        };
        assert(self@ =~= old(self)@.update(to.id(), after_cancel(old(self)@[to.id()])));
        woken
    }

    /// Check whether there was a reply or the wait was called off.
    pub fn is_canceled(&self, to: WaitResponder) -> (r: bool)
        requires
            self.wf(),
            awaited(self@, to),
        ensures
            r == !self@[to.id()].open,
    {
        assert(self.waits@[to.id as int].wf());
        !self.waits[to.id].sender.status().can_take()
    }

    /// Check whether a reply would not arrive.
    pub fn is_abandoned(&self, to: WaitResponder) -> (r: bool)
        requires
            self.wf(),
            awaited(self@, to),
        ensures
            r == !arrives(self@[to.id()]),
    {
        assert(self.waits@[to.id as int].wf());
        let wait: &Wait<X, W> = &self.waits[to.id];
        !wait.sender.status().can_take() || wait.inner.recv_canceled()
    }

    /// Reply. Returns the reply if nobody waits for it, and the waker that is
    /// due.
    pub fn send(&mut self, to: WaitResponder, reply: X) -> (r: (Result<(), X>, Option<W>))
        requires
            old(self).wf(),
            awaited(old(self)@, to),
        ensures
            final(self).wf(),
            r.0 == (if arrives(old(self)@[to.id()]) {
                Ok::<(), X>(())
            } else {
                Err::<(), X>(reply)
            }),
            r.1 == woken_by(old(self)@[to.id()]),
            final(self)@ == old(self)@.update(to.id(), after_reply(old(self)@[to.id()], reply)),
    {
        assert(self.waits@[to.id as int].wf());
        let wait: &mut Wait<X, W> = &mut self.waits[to.id];
        let sent: (Result<(), X>, Option<W>) = match wait.sender.try_take() {
            Ok(sender) => sender.send(&mut wait.inner, reply),
            Err(_) => (Err(reply), None),
        };
        assert(self@ =~= old(self)@.update(to.id(), after_reply(old(self)@[to.id()], reply)));
        sent
    }

    /// Look for the reply, leaving a waker if it has yet to come.
    pub fn poll(&mut self, waiter: &Waiter, waker: W) -> (r: Poll<Result<X, Canceled>>)
        requires
            old(self).wf(),
            0 <= waiter.id() < old(self)@.len(),
            attended(old(self)@[waiter.id()]),
        ensures
            final(self).wf(),
            match attempt(old(self)@[waiter.id()].shot, true) {
                Attempt::Ready(res) => r == Poll::Ready(res),
                _ => r is Pending,
            },
            final(self)@ == old(self)@.update(
                waiter.id(),
                after_poll_wait(old(self)@[waiter.id()], waker),
            ),
    {
        assert(self.waits@[waiter.id as int].wf());
        let wait: &mut Wait<X, W> = &mut self.waits[waiter.id];
        let found: Poll<Result<X, Canceled>> = wait.inner.poll_recv(Some(waker));
        assert(self@ =~= old(self)@.update(
            waiter.id(),
            after_poll_wait(old(self)@[waiter.id()], waker),
        ));
        found
    }

    /// Check whether there is nothing to wait for any more.
    pub fn is_decided(&self, waiter: &Waiter) -> (r: bool)
        requires
            self.wf(),
            0 <= waiter.id() < self@.len(),
        ensures
            r == !self@[waiter.id()].open,
    {
        assert(self.waits@[waiter.id as int].wf());
        !self.waits[waiter.id].sender.status().can_take()
    }

    /// Take the reply, or learn that there is none.
    pub fn receive(&mut self, waiter: &Waiter) -> (r: Result<X, Canceled>)
        requires
            old(self).wf(),
            0 <= waiter.id() < old(self)@.len(),
            !old(self)@[waiter.id()].open,
        ensures
            final(self).wf(),
            Attempt::Ready(r) == attempt(old(self)@[waiter.id()].shot, true),
            forall|waker: W|
                final(self)@ == old(self)@.update(
                    waiter.id(),
                    #[trigger] after_poll_wait(old(self)@[waiter.id()], waker),
                ),
    {
        assert(self.waits@[waiter.id as int].wf());
        let wait: &mut Wait<X, W> = &mut self.waits[waiter.id];
        let reply: Result<X, Canceled> = wait.inner.recv();
        assert(forall|waker: W|
            self@ =~= old(self)@.update(
                waiter.id(),
                #[trigger] after_poll_wait(old(self)@[waiter.id()], waker),
            ));
        reply
    }

    /// Stop waiting. Returns the reply if it is there.
    pub fn drop_waiter(&mut self, waiter: Waiter) -> (r: Option<X>)
        requires
            old(self).wf(),
            0 <= waiter.id() < old(self)@.len(),
            attended(old(self)@[waiter.id()]),
        ensures
            final(self).wf(),
            r == taken_by_cancel(old(self)@[waiter.id()].shot),
            final(self)@ == old(self)@.update(
                waiter.id(),
                after_leave(old(self)@[waiter.id()]),
            ),
    {
        assert(self.waits@[waiter.id as int].wf());
        let wait: &mut Wait<X, W> = &mut self.waits[waiter.id];
        let (reply, _): (Option<X>, Option<W>) = wait.inner.cancel_recv();
        assert(self@ =~= old(self)@.update(
            waiter.id(),
            after_leave(old(self)@[waiter.id()]),
        ));
        reply
    }
}

/// Whoever replies first decides: a later reply comes back, and calling the wait
/// off has no effect any more.
pub proof fn law_first_reply_counts<X, W>(w: WaitView<X, W>, first: X, second: X)
    requires
        wait_inv(w),
        arrives(w),
    ensures
        attempt(after_reply(w, first).shot, true) == Attempt::<X>::Ready(Ok(first)),
        !arrives(after_reply(w, first)),
        after_reply(after_reply(w, first), second) == after_reply(w, first),
        after_cancel(after_reply(w, first)) == after_reply(w, first),
{
}

/// A wait that was called off ends with the news that there is no reply.
pub proof fn law_canceled_wait_ends<X, W>(w: WaitView<X, W>)
    requires
        wait_inv(w),
        w.open,
    ensures
        attempt(after_cancel(w).shot, true) == Attempt::<X>::Ready(Err(Canceled)),
        !arrives(after_cancel(w)),
{
}

/// A reply to somebody who stopped waiting comes back, and a reply that is there
/// when somebody stops waiting is handed out.
pub proof fn law_no_reply_is_lost<X, W>(w: WaitView<X, W>, reply: X)
    requires
        wait_inv(w),
        arrives(w),
    ensures
        !arrives(after_leave(w)),
        taken_by_cancel(after_reply(w, reply).shot) == Some(reply),
{
}

/// Whoever looked last is woken by a reply, or when the wait is called off, and only then.
pub proof fn law_last_to_look_is_woken<X, W>(w: WaitView<X, W>, waker: W, reply: X)
    requires
        wait_inv(w),
        arrives(w),
    ensures
        woken_by(after_poll_wait(w, waker)) == Some(waker),
        arrives(after_poll_wait(w, waker)),
        woken_by(after_reply(w, reply)) is None,
        woken_by(after_cancel(w)) is None,
        woken_by(after_leave(w)) is None,
        wait_inv(fresh_wait::<X, W>()),
        arrives(fresh_wait::<X, W>()),
        woken_by(fresh_wait::<X, W>()) is None,
{
}

/// Whoever waits is known to wait until they leave, whether or not they have looked, and a
/// reply that comes after that does not reach them.
pub proof fn law_attended_until_left<X, W>(w: WaitView<X, W>, waker: W, reply: X)
    requires
        wait_inv(w),
        arrives(w),
    ensures
        attended(w),
        attended(after_poll_wait(w, waker)),
        !attended(after_leave(w)),
        after_leave(w).open,
        !after_reply(after_leave(w), reply).open,
        after_reply(after_leave(w), reply).shot.data is None,
        attempt(w.shot, true) is Pending,
{
}

} // verus!
