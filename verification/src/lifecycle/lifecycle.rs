//! The handlers of a pool.

use vstd::prelude::*;

use crate::lifecycle::info::ResourceInfo;
use crate::lifecycle::model::{Guard, Handlers, Resolve};
use crate::lifecycle::queue::{Queue, QueueView};
use crate::resource::lock::{after_unlock, known};
use crate::resource::operation::{Operation, ResourceResolve, Work};

verus! {

/// The handlers of a pool.
#[derive(Clone, Copy, Debug, PartialEq, Eq)]
pub struct Lifecycle {
    handlers: Handlers,
}

impl View for Lifecycle {
    type V = Handlers;

    closed spec fn view(&self) -> Handlers {
        self.handlers
    }
}

impl Lifecycle {
    /// Start with a handler that creates resources, and no other.
    pub fn new() -> (r: Self)
        ensures
            r@ == (Handlers { dispose: false, handle_error: false, keepalive: false }),
    {
        Lifecycle { handlers: Handlers { dispose: false, handle_error: false, keepalive: false } }
    }

    /// Change which handlers there are.
    pub fn set(&mut self, handlers: Handlers)
        ensures
            final(self)@ == handlers,
    {
        self.handlers = handlers;
    }

    /// Which handlers there are.
    pub fn handlers(&self) -> (r: Handlers)
        ensures
            r == self@,
    {
        self.handlers
    }

    /// Have a resource created.
    pub fn create<T>(&self, guard: Guard<T>) -> (r: Resolve<T>)
        ensures
            r == ResourceResolve::<ResourceInfo, T>::Future(
                Operation { work: Work::Create, guard },
            ),
    {
        ResourceResolve::Future(Operation { work: Work::Create, guard })
    }

    /// Have a resource kept alive. Without a handler it is disposed of.
    pub fn keepalive<T>(&self, guard: Guard<T>, queue: &mut Queue<T>) -> (r: Resolve<T>)
        requires
            old(queue).wf(),
            known(old(queue)@.cells, guard@.lock),
        ensures
            final(queue).wf(),
            if self@.keepalive {
                &&& r == ResourceResolve::<ResourceInfo, T>::Future(
                    Operation { work: Work::Keepalive, guard },
                )
                &&& final(queue)@ == old(queue)@
            } else if self@.dispose && guard@.value is Some {
                &&& r == ResourceResolve::<ResourceInfo, T>::Future(
                    Operation { work: Work::Dispose, guard },
                )
                &&& final(queue)@ == old(queue)@
            } else {
                &&& r == ResourceResolve::<ResourceInfo, T>::Resource(None)
                &&& final(queue)@ == (QueueView {
                    cells: after_unlock(old(queue)@.cells, guard@),
                    ..old(queue)@
                })
            },
    {
        if self.handlers.keepalive {
            ResourceResolve::Future(Operation { work: Work::Keepalive, guard })
        } else {
            self.dispose(guard, queue)
        }
    }

    /// Report an error. Returns the error if somebody wants to see it.
    pub fn handle_error<E>(&self, err: E) -> (r: Option<E>)
        ensures
            r == (if self@.handle_error {
                Some(err)
            } else {
                None
            }),
    {
        if self.handlers.handle_error {
            Some(err)
        } else {
            None
        }
    }

    /// Have a resource disposed of. Without a handler, and without a resource, the
    /// guard goes back as it is.
    pub fn dispose<T>(&self, guard: Guard<T>, queue: &mut Queue<T>) -> (r: Resolve<T>)
        requires
            old(queue).wf(),
            known(old(queue)@.cells, guard@.lock),
        ensures
            final(queue).wf(),
            if self@.dispose && guard@.value is Some {
                &&& r == ResourceResolve::<ResourceInfo, T>::Future(
                    Operation { work: Work::Dispose, guard },
                )
                &&& final(queue)@ == old(queue)@
            } else {
                &&& r == ResourceResolve::<ResourceInfo, T>::Resource(None)
                &&& final(queue)@ == (QueueView {
                    cells: after_unlock(old(queue)@.cells, guard@),
                    ..old(queue)@
                })
            },
    {
        if self.handlers.dispose && guard.is_some() {
            ResourceResolve::Future(Operation { work: Work::Dispose, guard })
        } else {
            queue.abandon(guard);
            ResourceResolve::empty()
        }
    }
}

} // verus!
