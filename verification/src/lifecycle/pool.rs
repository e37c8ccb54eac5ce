//! Handles to such a pool.

use vstd::prelude::*;

use crate::dropshot::{attempt, Attempt};
use crate::lifecycle::acquire::{Acquire, AcquireView};
use crate::lifecycle::info::ResourceInfo;
use crate::lifecycle::inner::PoolInner;
use crate::lifecycle::model::{
    after_ask_shutdown, after_drop_handle, extends, with_queue, PoolView,
};
use crate::lifecycle::queue::{after_release, Queue};
use crate::poll::Poll;
use crate::resource::lock::known;
use crate::resource::managed::Managed;
use crate::shared::in_time;
use crate::wait::{after_leave, after_poll_wait, attended, Waiter};

verus! {

/// A handle to a pool.
#[derive(Debug, PartialEq, Eq)]
pub struct Pool {
    granted: (),
}

/// The wait for a pool to be empty.
#[derive(Debug)]
pub struct PoolShutdown {
    receive: Waiter,
}

impl Pool {
    /// Start using a pool. Returns the first handle to it.
    pub fn new<T, W>(inner: PoolInner<T, W>) -> (r: (PoolInner<T, W>, Self))
        ensures
            r.0 == inner,
    {
        (inner, Pool { granted: () })
    }

    /// Request a resource. The request has a handle of its own.
    pub fn acquire<T, W>(&self, inner: &mut PoolInner<T, W>, now: u128) -> (r: Acquire<T>)
        requires
            old(inner).wf(),
            old(inner)@.handles < usize::MAX,
        ensures
            final(inner).wf(),
            extends(old(inner)@, final(inner)@),
            final(inner)@ == (PoolView {
                handles: (old(inner)@.handles + 1) as usize,
                ..old(inner)@
            }),
            r.state() == Some(AcquireView::<T>::Init),
            r.start() == now,
    {
        Acquire::new(self.clone(inner), now)
    }

    /// What the users and the manager share.
    pub fn queue<'a, T, W>(&self, inner: &'a PoolInner<T, W>) -> (r: &'a Queue<T>)
        ensures
            r@ == inner@.queue,
    {
        inner.queue()
    }

    /// Return a resource.
    pub fn release<T, W>(
        inner: &mut PoolInner<T, W>,
        managed: Managed<ResourceInfo, T>,
        now: u128,
    )
        requires
            old(inner).wf(),
            known(old(inner)@.queue.cells, managed@.lock),
            in_time(now, old(inner)@.queue.idle_timeout),
        ensures
            final(inner).wf(),
            extends(old(inner)@, final(inner)@),
            final(inner)@ == with_queue(
                old(inner)@,
                after_release(old(inner)@.queue, managed@, now),
            ),
    {
        inner.release(managed.into_guard(), now);
    }

    /// Get another handle.
    pub fn clone<T, W>(&self, inner: &mut PoolInner<T, W>) -> (r: Self)
        requires
            old(inner).wf(),
            old(inner)@.handles < usize::MAX,
        ensures
            final(inner).wf(),
            extends(old(inner)@, final(inner)@),
            final(inner)@ == (PoolView {
                handles: (old(inner)@.handles + 1) as usize,
                ..old(inner)@
            }),
    {
        inner.add_handle();
        Pool { granted: () }
    }

    /// Give the handle up.
    pub fn drop<T, W>(self, inner: &mut PoolInner<T, W>)
        requires
            old(inner).wf(),
            old(inner)@.handles > 0,
        ensures
            final(inner).wf(),
            extends(old(inner)@, final(inner)@),
            final(inner)@ == after_drop_handle(old(inner)@),
    {
        inner.drop_handle();
    }

    /// Give the handle up, and wait for the pool to be empty.
    pub fn shutdown<T, W>(
        self,
        inner: &mut PoolInner<T, W>,
        timeout: u128,
        now: u128,
    ) -> (r: PoolShutdown)
        requires
            old(inner).wf(),
            old(inner)@.shutdowns.len() < usize::MAX,
            old(inner)@.handles > 0,
            now + timeout <= u128::MAX,
        ensures
            final(inner).wf(),
            extends(old(inner)@, final(inner)@),
            final(inner)@ == after_drop_handle(
                after_ask_shutdown(old(inner)@, (now + timeout) as u128),
            ),
            r.place() == old(inner)@.shutdowns.len(),
            r.valid(final(inner)@),
    {
        let receive: Waiter = inner.ask_shutdown(now + timeout);
        self.drop(inner);
        PoolShutdown { receive }
    }
}

impl PoolShutdown {
    /// The place at which the manager replies.
    pub closed spec fn place(&self) -> int {
        self.receive.id()
    }

    /// Check that the manager of a pool can reply.
    pub open spec fn valid<T, W>(&self, p: PoolView<T, W>) -> bool {
        0 <= self.place() < p.shutdowns.len() && attended(p.shutdowns[self.place()])
    }

    /// Check whether the pool is empty, leaving a waker if it is not decided.
    pub fn poll<T, W>(&mut self, inner: &mut PoolInner<T, W>, waker: W) -> (r: Poll<
        bool,
    >)
        requires
            old(inner).wf(),
            old(self).valid(old(inner)@),
        ensures
            final(inner).wf(),
            extends(old(inner)@, final(inner)@),
            final(self).place() == old(self).place(),
            final(self).valid(final(inner)@),
            final(inner)@ == (PoolView {
                shutdowns: old(inner)@.shutdowns.update(
                    old(self).place(),
                    after_poll_wait(old(inner)@.shutdowns[old(self).place()], waker),
                ),
                ..old(inner)@
            }),
            match attempt(old(inner)@.shutdowns[old(self).place()].shot, true) {
                Attempt::Ready(Ok(done)) => r == Poll::Ready(done),
                Attempt::Ready(Err(_)) => r == Poll::Ready(false),
                _ => r is Pending,
            },
    {
        match inner.poll_shutdown(&self.receive, waker) {
            Poll::Ready(Ok(done)) => Poll::Ready(done),
            Poll::Ready(Err(_)) => Poll::Ready(false),
            Poll::Pending => Poll::Pending,
        }
    }

    /// Stop waiting.
    pub fn drop<T, W>(self, inner: &mut PoolInner<T, W>)
        requires
            old(inner).wf(),
            self.valid(old(inner)@),
        ensures
            final(inner).wf(),
            final(inner)@ == (PoolView {
                shutdowns: old(inner)@.shutdowns.update(
                    self.place(),
                    after_leave(old(inner)@.shutdowns[self.place()]),
                ),
                ..old(inner)@
            }),
    {
        inner.drop_shutdown(self.receive);
    }
}

} // verus!
