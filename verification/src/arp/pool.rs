//! Handles to such a pool.

use vstd::prelude::*;

use crate::arp::acquire::Acquire;
use crate::arp::internal::PoolInternal;
use crate::arp::model::{
    after_ask_shutdown, after_drop_handle, extends, with_shared, PoolView,
};
use crate::arp::shared::released;
use crate::dropshot::{attempt, Attempt};
use crate::poll::Poll;
use crate::pool::acquire::AcquireView;
use crate::resource::info::ResourceInfo;
use crate::resource::lock::known;
use crate::resource::managed::Managed;
use crate::shared::in_time;
use crate::wait::{after_leave, after_poll_wait, attended, Waiter};

verus! {

/// A handle to a pool.
#[derive(Debug, PartialEq, Eq)]
pub struct Pool {
    granted: (),
}

/// The wait for a pool to be empty.
#[derive(Debug)]
pub struct PoolShutdown {
    receive: Waiter,
}

impl Pool {
    /// Start using a pool. Returns the first handle to it.
    pub fn new<T, W, R>(inner: PoolInternal<T, W, R>) -> (r: (PoolInternal<T, W, R>, Self)) where
        R: Fn(T, ResourceInfo) -> (T, bool),

        ensures
            r.0 == inner,
    {
        (inner, Pool { granted: () })
    }

    /// Request a resource. The request has a handle of its own.
    pub fn acquire<T, W, R>(&self, inner: &mut PoolInternal<T, W, R>, now: u128) -> (r: Acquire<
        T,
    >) where R: Fn(T, ResourceInfo) -> (T, bool)
        requires
            old(inner).wf(),
            old(inner)@.handles < usize::MAX,
        ensures
            final(inner).wf(),
            final(inner).same_setup(old(inner)),
            extends(old(inner)@, final(inner)@),
            final(inner)@ == (PoolView {
                handles: (old(inner)@.handles + 1) as usize,
                ..old(inner)@
            }),
            r.state() == Some(AcquireView::<T>::Init),
            r.start() == now,
    {
        Acquire::new(self.clone(inner), now)
    }

    /// The number of resources.
    pub fn count<T, W, R>(&self, inner: &PoolInternal<T, W, R>) -> (r: usize) where
        R: Fn(T, ResourceInfo) -> (T, bool),

        ensures
            r == inner@.shared.count,
    {
        inner.count()
    }

    /// Return a resource.
    pub fn release<T, W, R>(
        inner: &mut PoolInternal<T, W, R>,
        managed: Managed<ResourceInfo, T>,
        now: u128,
    ) where R: Fn(T, ResourceInfo) -> (T, bool)
        requires
            old(inner).wf(),
            known(old(inner)@.shared.cells, managed@.lock),
            in_time(now, old(inner)@.shared.idle_timeout),
        ensures
            final(inner).wf(),
            final(inner).same_setup(old(inner)),
            extends(old(inner)@, final(inner)@),
            released(
                old(inner)@.shared,
                old(inner).hook(),
                managed@,
                now,
                final(inner)@.shared,
            ),
            final(inner)@ == with_shared(old(inner)@, final(inner)@.shared),
    {
        inner.release(managed.into_guard(), now);
    }

    /// Get another handle.
    pub fn clone<T, W, R>(&self, inner: &mut PoolInternal<T, W, R>) -> (r: Self) where
        R: Fn(T, ResourceInfo) -> (T, bool),

        requires
            old(inner).wf(),
            old(inner)@.handles < usize::MAX,
        ensures
            final(inner).wf(),
            final(inner).same_setup(old(inner)),
            extends(old(inner)@, final(inner)@),
            final(inner)@ == (PoolView {
                handles: (old(inner)@.handles + 1) as usize,
                ..old(inner)@
            }),
    {
        inner.add_handle();
        Pool { granted: () }
    }

    /// Give the handle up.
    pub fn drop<T, W, R>(self, inner: &mut PoolInternal<T, W, R>) where
        R: Fn(T, ResourceInfo) -> (T, bool),

        requires
            old(inner).wf(),
            old(inner)@.handles > 0,
        ensures
            final(inner).wf(),
            final(inner).same_setup(old(inner)),
            extends(old(inner)@, final(inner)@),
            final(inner)@ == after_drop_handle(old(inner)@),
    {
        inner.drop_handle();
    }

    /// Give the handle up, and wait for the pool to be empty.
    pub fn shutdown<T, W, R>(
        self,
        inner: &mut PoolInternal<T, W, R>,
        timeout: u128,
        now: u128,
    ) -> (r: PoolShutdown) where R: Fn(T, ResourceInfo) -> (T, bool)
        requires
            old(inner).wf(),
            old(inner)@.shutdowns.len() < usize::MAX,
            old(inner)@.handles > 0,
            now + timeout <= u128::MAX,
        ensures
            final(inner).wf(),
            final(inner).same_setup(old(inner)),
            extends(old(inner)@, final(inner)@),
            final(inner)@ == after_drop_handle(
                after_ask_shutdown(old(inner)@, (now + timeout) as u128),
            ),
            r.place() == old(inner)@.shutdowns.len(),
            r.valid(final(inner)@),
    {
        let receive: Waiter = inner.ask_shutdown(now + timeout);
        self.drop(inner);
        PoolShutdown { receive }
    }
}

impl PoolShutdown {
    /// The place at which the manager replies.
    pub closed spec fn place(&self) -> int {
        self.receive.id()
    }

    /// Check that the manager of a pool can reply.
    pub open spec fn valid<T, W>(&self, p: PoolView<T, W>) -> bool {
        0 <= self.place() < p.shutdowns.len() && attended(p.shutdowns[self.place()])
    }

    /// Check whether the pool is empty, leaving a waker if it is not decided.
    pub fn poll<T, W, R>(&mut self, inner: &mut PoolInternal<T, W, R>, waker: W) -> (r: Poll<
        bool,
    >) where R: Fn(T, ResourceInfo) -> (T, bool)
        requires
            old(inner).wf(),
            old(self).valid(old(inner)@),
        ensures
            final(inner).wf(),
            final(inner).same_setup(old(inner)),
            extends(old(inner)@, final(inner)@),
            final(self).place() == old(self).place(),
            final(self).valid(final(inner)@),
            final(inner)@ == (PoolView {
                shutdowns: old(inner)@.shutdowns.update(
                    old(self).place(),
                    after_poll_wait(old(inner)@.shutdowns[old(self).place()], waker),
                ),
                ..old(inner)@
            }),
            match attempt(old(inner)@.shutdowns[old(self).place()].shot, true) {
                Attempt::Ready(Ok(done)) => r == Poll::Ready(done),
                Attempt::Ready(Err(_)) => r == Poll::Ready(false),
                _ => r is Pending,
            },
    {
        match inner.poll_shutdown(&self.receive, waker) {
            Poll::Ready(Ok(done)) => Poll::Ready(done),
            Poll::Ready(Err(_)) => Poll::Ready(false),
            Poll::Pending => Poll::Pending,
        }
    }

    /// Stop waiting.
    pub fn drop<T, W, R>(self, inner: &mut PoolInternal<T, W, R>) where
        R: Fn(T, ResourceInfo) -> (T, bool),

        requires
            old(inner).wf(),
            self.valid(old(inner)@),
        ensures
            final(inner).wf(),
            final(inner).same_setup(old(inner)),
            final(inner)@ == (PoolView {
                shutdowns: old(inner)@.shutdowns.update(
                    self.place(),
                    after_leave(old(inner)@.shutdowns[self.place()]),
                ),
                ..old(inner)@
            }),
    {
        inner.drop_shutdown(self.receive);
    }
}

} // verus!
