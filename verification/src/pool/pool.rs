//! Handles to a pool.

use vstd::prelude::*;

use crate::dropshot::{attempt, Attempt};
use crate::poll::Poll;
use crate::pool::acquire::{Acquire, AcquireView};
use crate::pool::internal::PoolInternal;
use crate::pool::model::{
    after_ask_drain, after_drop_handle, extends, with_shared, PoolView,
};
use crate::resource::info::ResourceInfo;
use crate::resource::lock::known;
use crate::resource::managed::Managed;
use crate::shared::{in_time, released};
use crate::util::debug::{struct_text, structure};
use crate::util::decimal::{decimal, decimal_of};
use crate::wait::{after_leave, after_poll_wait, attended, Waiter};

verus! {

/// A handle to a pool.
#[derive(Debug, PartialEq, Eq)]
pub struct Pool {
    granted: (),
}

/// The wait for a pool to be emptied.
#[derive(Debug)]
pub struct PoolDrain {
    inner: Option<Pool>,
    receive: Waiter,
}

impl Pool {
    /// Start using a pool. Returns the first handle to it.
    pub fn new<T, W, R>(inner: PoolInternal<T, W, R>) -> (r: (PoolInternal<T, W, R>, Self)) where
        R: Fn(T, ResourceInfo) -> (T, bool),

        ensures
            r.0 == inner,
    {
        (inner, Pool { granted: () })
    }

    /// Request a resource. The request has a handle of its own.
    pub fn acquire<T, W, R>(&self, inner: &mut PoolInternal<T, W, R>, now: u128) -> (r: Acquire<
        T,
    >) where R: Fn(T, ResourceInfo) -> (T, bool)
        requires
            old(inner).wf(),
            old(inner)@.handles < usize::MAX,
        ensures
            final(inner).wf(),
            final(inner).same_setup(old(inner)),
            extends(old(inner)@, final(inner)@),
            final(inner)@ == (PoolView {
                handles: (old(inner)@.handles + 1) as usize,
                ..old(inner)@
            }),
            r.state() == Some(AcquireView::<T>::Init),
            r.start() == now,
    {
        Acquire::acquire(self.clone(inner), now)
    }

    /// Fetch the current number of allocated resources.
    pub fn count<T, W, R>(&self, inner: &PoolInternal<T, W, R>) -> (r: usize) where
        R: Fn(T, ResourceInfo) -> (T, bool),

        ensures
            r == inner@.shared.count,
    {
        inner.count()
    }

    /// The pool in writing.
    pub fn debug<T, W, R>(&self, inner: &PoolInternal<T, W, R>, alternate: bool) -> (r:
        String) where R: Fn(T, ResourceInfo) -> (T, bool)
        ensures
            r@ == struct_text(
                "Pool"@,
                "count"@,
                alternate,
                decimal_of(inner@.shared.count as nat),
            ),
    {
        structure("Pool", "count", alternate, decimal(self.count(inner)).as_str())
    }

    /// Return a resource.
    pub fn release<T, W, R>(
        inner: &mut PoolInternal<T, W, R>,
        managed: Managed<ResourceInfo, T>,
        now: u128,
    ) where R: Fn(T, ResourceInfo) -> (T, bool)
        requires
            old(inner).wf(),
            known(old(inner)@.shared.cells, managed@.lock),
            in_time(now, old(inner)@.shared.idle_timeout),
        ensures
            final(inner).wf(),
            final(inner).same_setup(old(inner)),
            extends(old(inner)@, final(inner)@),
            released(
                old(inner)@.shared,
                old(inner).hook(),
                managed@,
                now,
                final(inner)@.shared,
            ),
            final(inner)@ == with_shared(old(inner)@, final(inner)@.shared),
    {
        inner.release(managed.into_guard(), now);
    }

    /// Get another handle.
    pub fn clone<T, W, R>(&self, inner: &mut PoolInternal<T, W, R>) -> (r: Self) where
        R: Fn(T, ResourceInfo) -> (T, bool),

        requires
            old(inner).wf(),
            old(inner)@.handles < usize::MAX,
        ensures
            final(inner).wf(),
            final(inner).same_setup(old(inner)),
            extends(old(inner)@, final(inner)@),
            final(inner)@ == (PoolView {
                handles: (old(inner)@.handles + 1) as usize,
                ..old(inner)@
            }),
    {
        inner.add_handle();
        Pool { granted: () }
    }

    /// Give the handle up.
    pub fn drop<T, W, R>(self, inner: &mut PoolInternal<T, W, R>) where
        R: Fn(T, ResourceInfo) -> (T, bool),

        requires
            old(inner).wf(),
            old(inner)@.handles > 0,
        ensures
            final(inner).wf(),
            final(inner).same_setup(old(inner)),
            extends(old(inner)@, final(inner)@),
            final(inner)@ == after_drop_handle(old(inner)@),
    {
        inner.drop_handle();
    }

    /// Attempt to drain and shut down the pool, disposing of any allocated resource
    /// instances.
    pub fn drain<T, W, R>(
        self,
        inner: &mut PoolInternal<T, W, R>,
        timeout: u128,
        now: u128,
    ) -> (r: PoolDrain) where R: Fn(T, ResourceInfo) -> (T, bool)
        requires
            old(inner).wf(),
            old(inner)@.drains.len() < usize::MAX,
            now + timeout <= u128::MAX,
        ensures
            final(inner).wf(),
            final(inner).same_setup(old(inner)),
            extends(old(inner)@, final(inner)@),
            final(inner)@ == after_ask_drain(old(inner)@, (now + timeout) as u128),
            r.place() == old(inner)@.drains.len(),
            r.is_waiting(),
            r.valid(final(inner)@),
    {
        let receive: Waiter = inner.drain(now + timeout);
        PoolDrain { inner: Some(self), receive }
    }
}

impl PoolDrain {
    /// The place at which the manager replies.
    pub closed spec fn place(&self) -> int {
        self.receive.id()
    }

    /// Check that the handle to the pool has not been given back.
    pub closed spec fn is_waiting(&self) -> bool {
        self.inner is Some
    }

    /// Check that the manager of a pool can reply.
    pub open spec fn valid<T, W>(&self, p: PoolView<T, W>) -> bool {
        0 <= self.place() < p.drains.len() && attended(p.drains[self.place()])
    }

    /// The wait in writing.
    pub fn debug(&self) -> (r: String)
        ensures
            r@ == "PoolDrain"@,
    {
        "PoolDrain".to_owned()
    }

    /// Check whether the pool was emptied, leaving a waker if it is not decided.
    ///
    /// The handle to the pool comes back if it was not.
    pub fn poll<T, W, R>(&mut self, inner: &mut PoolInternal<T, W, R>, waker: W) -> (r: Poll<
        Result<(), Pool>,
    >) where R: Fn(T, ResourceInfo) -> (T, bool)
        requires
            old(inner).wf(),
            old(self).valid(old(inner)@),
        ensures
            final(inner).wf(),
            final(inner).same_setup(old(inner)),
            extends(old(inner)@, final(inner)@),
            final(self).place() == old(self).place(),
            final(self).valid(final(inner)@),
            if !old(self).is_waiting() {
                &&& r matches Poll::Ready(Ok(()))
                &&& !final(self).is_waiting()
                &&& final(inner)@ == old(inner)@
            } else {
                &&& final(inner)@ == (PoolView {
                    drains: old(inner)@.drains.update(
                        old(self).place(),
                        after_poll_wait(old(inner)@.drains[old(self).place()], waker),
                    ),
                    ..old(inner)@
                })
                &&& match attempt(old(inner)@.drains[old(self).place()].shot, true) {
                    Attempt::Ready(Ok(true)) => {
                        &&& r matches Poll::Ready(Ok(()))
                        &&& final(self).is_waiting()
                    },
                    Attempt::Ready(_) => {
                        &&& r matches Poll::Ready(Err(_))
                        &&& !final(self).is_waiting()
                    },
                    _ => r is Pending && final(self).is_waiting(),
                }
            },
    {
        if self.inner.is_none() {
            return Poll::Ready(Ok(()));
        }
        match inner.poll_drain(&self.receive, waker) {
            Poll::Ready(done) => {
                if matches!(done, Ok(true)) {
                    Poll::Ready(Ok(()))
                } else {
                    match self.inner.take() {
                        Some(pool) => Poll::Ready(Err(pool)),
                        None => vstd::pervasive::unreached(),
                    }
                }
            },
            Poll::Pending => Poll::Pending,
        }
    }

    /// Stop waiting, and give up the handle to the pool if it has not been given
    /// back.
    pub fn drop<T, W, R>(self, inner: &mut PoolInternal<T, W, R>) where
        R: Fn(T, ResourceInfo) -> (T, bool),

        requires
            old(inner).wf(),
            self.valid(old(inner)@),
            self.is_waiting() ==> old(inner)@.handles > 0,
        ensures
            final(inner).wf(),
            final(inner).same_setup(old(inner)),
            ({
                let left = PoolView {
                    drains: old(inner)@.drains.update(
                        self.place(),
                        after_leave(old(inner)@.drains[self.place()]),
                    ),
                    ..old(inner)@
                };
                final(inner)@ == if self.is_waiting() {
                    after_drop_handle(left)
                } else {
                    left
                }
            }),
    {
        inner.drop_drain(self.receive);
        if let Some(pool) = self.inner {
            pool.drop(inner);
        }
    }
}

} // verus!
