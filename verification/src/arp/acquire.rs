//! Getting a resource out of such a pool.

use vstd::prelude::*;

use crate::arp::error::AcquireError;
use crate::arp::internal::PoolInternal;
use crate::arp::model::{
    after_drop_handle, after_idle, after_look, after_spawn, after_try_create, after_try_wait,
    extends, idle_resource, try_created, with_shared, PoolView,
};
use crate::arp::pool::Pool;
use crate::arp::shared::{released, SharedView};
use crate::dropshot::{attempt, taken_by_cancel, Attempt, Canceled};
use crate::pool::acquire::{completed, AcquireView, Answer, Done};
use crate::pool::model::{resolve_known, Resolve};
use crate::resource::info::ResourceInfo;
use crate::resource::lock::{after_unlock, known, ResourceGuard};
use crate::resource::managed::Managed;
use crate::resource::operation::{resource_create, Operation, ResourceResolve};
use crate::shared::in_time;
use crate::wait::{after_leave, attended, Waiter};

verus! {

broadcast use {
    PoolInternal::lemma_wf,
    ResourceGuard::lemma_of,
    ResourceGuard::lemma_view,
};

/// Where a request for a resource stands.
pub enum AcquirePoll<T, E> {
    /// It is decided.
    Ready(Result<Managed<ResourceInfo, T>, AcquireError<E>>),
    /// The manager has yet to reply.
    Pending,
    /// A resource has to be created first.
    Evaluate,
}

/// What there is after a request for a resource was taken further.
#[verifier::ext_equal]
pub ghost struct Progress<T, W> {
    /// The pool.
    pub pool: PoolView<T, W>,
    /// How far the request has come, unless it is decided.
    pub state: Option<AcquireView<T>>,
    /// The answer.
    pub answer: Answer<T>,
}

/// Check that an answer is the one that was given. Nobody is refused.
pub open spec fn answers<T, E>(r: AcquirePoll<T, E>, answer: Answer<T>) -> bool {
    match answer {
        Answer::Granted(guard) => r matches AcquirePoll::Ready(Ok(managed)) && managed@ == guard,
        Answer::Busy => false,
        Answer::Closed => r matches AcquirePoll::Ready(Err(AcquireError::Stopped)),
        Answer::Timeout => r matches AcquirePoll::Ready(Err(AcquireError::Timeout)),
        Answer::Pending => r is Pending,
        Answer::Evaluate => r is Evaluate,
    }
}

/// A request for a resource at its beginning.
///
/// Resources that were returned come first. If there is none, one is created. If
/// there may not be another, the manager is asked for one.
pub open spec fn from_init<T, W>(p: PoolView<T, W>, start: u128, now: u128, waker: W) -> Progress<
    T,
    W,
> {
    let found = idle_resource(p.shared, now);
    let q = with_shared(p, after_idle(p.shared));
    match found {
        ResourceResolve::Resource(Some(guard)) => Progress {
            pool: q,
            state: None,
            answer: Answer::Granted(guard@),
        },
        _ => {
            let made = try_created(q.shared, now);
            let m = with_shared(q, after_try_create(q.shared));
            if made is Future {
                Progress {
                    pool: m,
                    state: Some(AcquireView::Resolve(made)),
                    answer: Answer::Evaluate,
                }
            } else {
                let id = m.waits.len() as int;
                Progress {
                    pool: after_look(after_try_wait(m, start), id, waker),
                    state: Some(AcquireView::Waiting(id)),
                    answer: Answer::Pending,
                }
            }
        },
    }
}

/// A request for which there is a resource, or the prospect of one.
pub open spec fn from_resolve<T, W>(
    p: PoolView<T, W>,
    resolve: Resolve<T>,
    start: u128,
    now: u128,
    waker: W,
) -> Progress<T, W> {
    match resolve {
        ResourceResolve::Resource(Some(guard)) => Progress {
            pool: p,
            state: None,
            answer: Answer::Granted(guard@),
        },
        ResourceResolve::Resource(None) => from_init(p, start, now, waker),
        ResourceResolve::Future(_) => Progress {
            pool: p,
            state: Some(AcquireView::Resolve(resolve)),
            answer: Answer::Evaluate,
        },
    }
}

/// A request to which the manager is to reply.
pub open spec fn from_waiting<T, W>(
    p: PoolView<T, W>,
    id: int,
    start: u128,
    now: u128,
    waker: W,
) -> Progress<T, W> {
    let q = after_look(p, id, waker);
    match attempt(p.waits[id].shot, true) {
        Attempt::Ready(Ok(resolve)) => from_resolve(q, resolve, start, now, waker),
        Attempt::Ready(Err(_)) => Progress { pool: q, state: None, answer: Answer::Timeout },
        _ => Progress {
            pool: q,
            state: Some(AcquireView::Waiting(id)),
            answer: Answer::Pending,
        },
    }
}

/// A request for a resource, taken further.
pub open spec fn progress<T, W>(
    p: PoolView<T, W>,
    state: Option<AcquireView<T>>,
    start: u128,
    now: u128,
    waker: W,
) -> Progress<T, W> {
    match state {
        None => Progress { pool: p, state: None, answer: Answer::Closed },
        Some(AcquireView::Init) => from_init(p, start, now, waker),
        Some(AcquireView::Resolve(resolve)) => from_resolve(p, resolve, start, now, waker),
        Some(AcquireView::Waiting(id)) => from_waiting(p, id, start, now, waker),
    }
}

enum AcquireState<T> {
    Init,
    Resolve(Resolve<T>),
    Waiting(Waiter),
}

/// A request for a resource, which has a handle to the pool.
pub struct Acquire<T> {
    pool: Pool,
    start: u128,
    state: Option<AcquireState<T>>,
}

impl<T> Acquire<T> {
    /// How far the request has come, unless it is decided.
    pub closed spec fn state(&self) -> Option<AcquireView<T>> {
        match self.state {
            None => None,
            Some(AcquireState::Init) => Some(AcquireView::Init),
            Some(AcquireState::Resolve(resolve)) => Some(AcquireView::Resolve(resolve)),
            Some(AcquireState::Waiting(waiter)) => Some(AcquireView::Waiting(waiter.id())),
        }
    }

    /// When the request was made.
    pub closed spec fn start(&self) -> u128 {
        self.start
    }

    /// Check that what the request has is in a pool.
    pub open spec fn valid<W>(&self, p: PoolView<T, W>) -> bool {
        match self.state() {
            Some(AcquireView::Resolve(resolve)) => resolve_known(p.shared.cells, resolve),
            Some(AcquireView::Waiting(id)) => 0 <= id < p.waits.len() && attended(p.waits[id]),
            _ => true,
        }
    }

    /// Request a resource.
    pub fn new(pool: Pool, start: u128) -> (r: Self)
        ensures
            r.state() == Some(AcquireView::<T>::Init),
            r.start() == start,
    {
        Acquire { pool, start, state: Some(AcquireState::Init) }
    }

    /// Take the request further.
    pub fn poll<W, R, E>(
        &mut self,
        pool: &mut PoolInternal<T, W, R>,
        now: u128,
        waker: W,
    ) -> (r: AcquirePoll<T, E>) where R: Fn(T, ResourceInfo) -> (T, bool)
        requires
            old(pool).wf(),
            old(self).valid(old(pool)@),
            old(pool)@.shared.cells.len() < usize::MAX,
            old(pool)@.waits.len() < usize::MAX,
            in_time(old(self).start(), old(pool)@.acquire_timeout),
        ensures
            final(pool).wf(),
            final(pool).same_setup(old(pool)),
            extends(old(pool)@, final(pool)@),
            final(self).valid(final(pool)@),
            final(self).start() == old(self).start(),
            ({
                let next = progress(
                    old(pool)@,
                    old(self).state(),
                    old(self).start(),
                    now,
                    waker,
                );
                &&& final(pool)@ == next.pool
                &&& final(self).state() == next.state
                &&& answers(r, next.answer)
                &&& r matches AcquirePoll::Ready(Ok(managed)) ==> known(
                    final(pool)@.shared.cells,
                    managed@.lock,
                )
            }),
    {
        match self.state.take() {
            // already completed
            None => AcquirePoll::Ready(Err(AcquireError::Stopped)),
            Some(AcquireState::Init) => self.init(pool, now, waker),
            Some(AcquireState::Resolve(resolve)) => self.resolve(pool, resolve, now, waker),
            Some(AcquireState::Waiting(waiter)) => {
                if pool.is_decided(&waiter) {
                    let ghost before = pool@;
                    let reply: Result<Resolve<T>, Canceled> = pool.receive(&waiter);
                    assert(pool@ == after_look(before, waiter.id(), waker));
                    match reply {
                        Ok(resolve) => self.resolve(pool, resolve, now, waker),
                        Err(_) => AcquirePoll::Ready(Err(AcquireError::Timeout)),
                    }
                } else {
                    let _ = pool.poll_wait(&waiter, waker);
                    self.state = Some(AcquireState::Waiting(waiter));
                    AcquirePoll::Pending
                }
            },
        }
    }

    fn resolve<W, R, E>(
        &mut self,
        pool: &mut PoolInternal<T, W, R>,
        resolve: Resolve<T>,
        now: u128,
        waker: W,
    ) -> (r: AcquirePoll<T, E>) where R: Fn(T, ResourceInfo) -> (T, bool)
        requires
            old(pool).wf(),
            old(self).state() is None,
            resolve_known(old(pool)@.shared.cells, resolve),
            old(pool)@.shared.cells.len() < usize::MAX,
            old(pool)@.waits.len() < usize::MAX,
            in_time(old(self).start(), old(pool)@.acquire_timeout),
        ensures
            final(pool).wf(),
            final(pool).same_setup(old(pool)),
            extends(old(pool)@, final(pool)@),
            final(self).valid(final(pool)@),
            final(self).start() == old(self).start(),
            ({
                let next = from_resolve(old(pool)@, resolve, old(self).start(), now, waker);
                &&& final(pool)@ == next.pool
                &&& final(self).state() == next.state
                &&& answers(r, next.answer)
                &&& r matches AcquirePoll::Ready(Ok(managed)) ==> known(
                    final(pool)@.shared.cells,
                    managed@.lock,
                )
            }),
    {
        match resolve {
            ResourceResolve::Resource(Some(guard)) => AcquirePoll::Ready(Ok(Managed::new(guard))),
            // Something went wrong during the resolve, start over
            ResourceResolve::Resource(None) => self.init(pool, now, waker),
            ResourceResolve::Future(_) => {
                self.state = Some(AcquireState::Resolve(resolve));
                AcquirePoll::Evaluate
            },
        }
    }

    fn init<W, R, E>(
        &mut self,
        pool: &mut PoolInternal<T, W, R>,
        now: u128,
        waker: W,
    ) -> (r: AcquirePoll<T, E>) where R: Fn(T, ResourceInfo) -> (T, bool)
        requires
            old(pool).wf(),
            old(self).state() is None,
            old(pool)@.shared.cells.len() < usize::MAX,
            old(pool)@.waits.len() < usize::MAX,
            in_time(old(self).start(), old(pool)@.acquire_timeout),
        ensures
            final(pool).wf(),
            final(pool).same_setup(old(pool)),
            extends(old(pool)@, final(pool)@),
            final(self).valid(final(pool)@),
            final(self).start() == old(self).start(),
            ({
                let next = from_init(old(pool)@, old(self).start(), now, waker);
                &&& final(pool)@ == next.pool
                &&& final(self).state() == next.state
                &&& answers(r, next.answer)
                &&& r matches AcquirePoll::Ready(Ok(managed)) ==> known(
                    final(pool)@.shared.cells,
                    managed@.lock,
                )
            }),
    {
        // Try to acquire from the idle queue
        match pool.try_acquire_idle(now) {
            ResourceResolve::Resource(Some(guard)) => AcquirePoll::Ready(Ok(Managed::new(guard))),
            _ => {
                // Queue is empty, try to create a new resource
                let made: Resolve<T> = pool.try_create(now);
                if !made.is_empty() {
                    self.state = Some(AcquireState::Resolve(made));
                    return AcquirePoll::Evaluate;
                }
                // Register a waiter
                let waiter: Waiter = pool.try_wait(self.start);
                let _ = pool.poll_wait(&waiter, waker);
                self.state = Some(AcquireState::Waiting(waiter));
                AcquirePoll::Pending
            },
        }
    }

    /// The work that has to be completed first, if there is any.
    pub fn operation(&self) -> (r: Option<&Operation<ResourceInfo, T>>)
        ensures
            match self.state() {
                Some(AcquireView::Resolve(ResourceResolve::Future(operation))) => r == Some(
                    &operation,
                ),
                _ => r is None,
            },
    {
        match &self.state {
            Some(AcquireState::Resolve(ResourceResolve::Future(operation))) => Some(operation),
            _ => None,
        }
    }

    /// Take in the outcome of the creation of a resource.
    pub fn complete<W, R, E>(
        &mut self,
        pool: &mut PoolInternal<T, W, R>,
        outcome: Result<T, E>,
        now: u128,
    ) -> (r: Result<Managed<ResourceInfo, T>, AcquireError<E>>) where
        R: Fn(T, ResourceInfo) -> (T, bool),

        requires
            old(pool).wf(),
            old(self).valid(old(pool)@),
            old(self).state() matches Some(AcquireView::Resolve(ResourceResolve::Future(_))),
            old(self).state()->0->Resolve_0->Future_0.guard@.value is None,
        ensures
            final(pool).wf(),
            final(pool).same_setup(old(pool)),
            extends(old(pool)@, final(pool)@),
            final(self).state() is None,
            final(self).start() == old(self).start(),
            ({
                let guard = old(self).state()->0->Resolve_0->Future_0.guard@;
                match outcome {
                    Err(err) => {
                        &&& r matches Err(AcquireError::ResourceError(e))
                        &&& e == err
                        &&& final(pool)@ == with_shared(
                            old(pool)@,
                            SharedView {
                                cells: after_unlock(old(pool)@.shared.cells, guard),
                                ..old(pool)@.shared
                            },
                        )
                    },
                    Ok(value) => {
                        &&& r is Ok
                        &&& r->Ok_0@ == completed(guard, Done::Created(value), now)
                        &&& known(final(pool)@.shared.cells, r->Ok_0@.lock)
                        &&& final(pool)@ == old(pool)@
                    },
                }
            }),
    {
        match self.state.take() {
            Some(AcquireState::Resolve(ResourceResolve::Future(operation))) => {
                match resource_create(operation.guard, outcome, now) {
                    Ok(guard) => Ok(Managed::new(guard)),
                    Err((err, guard)) => {
                        pool.abandon(guard);
                        Err(AcquireError::ResourceError(err))
                    },
                }
            },
            _ => vstd::pervasive::unreached(),
        }
    }

    /// Give the request up, and the handle to the pool with it. Work that is going
    /// on is completed in the background, and a resource that is there is returned.
    pub fn drop<W, R>(self, pool: &mut PoolInternal<T, W, R>, now: u128) where
        R: Fn(T, ResourceInfo) -> (T, bool),

        requires
            old(pool).wf(),
            self.valid(old(pool)@),
            old(pool)@.handles > 0,
            in_time(now, old(pool)@.shared.idle_timeout),
        ensures
            final(pool).wf(),
            final(pool).same_setup(old(pool)),
            request_dropped(
                after_drop_handle(old(pool)@),
                old(pool).hook(),
                self.state(),
                now,
                final(pool)@,
            ),
    {
        self.pool.drop(pool);
        match self.state {
            None | Some(AcquireState::Init) => {},
            Some(AcquireState::Resolve(resolve)) => pool.complete_resolve(resolve, now),
            Some(AcquireState::Waiting(waiter)) => {
                if let Some(resolve) = pool.drop_wait(waiter) {
                    pool.complete_resolve(resolve, now);
                }
            },
        }
    }
}

/// Check that giving up a request leads from one state of a pool to another.
pub open spec fn request_dropped<T, W, R: Fn(T, ResourceInfo) -> (T, bool)>(
    p: PoolView<T, W>,
    hook: Option<R>,
    state: Option<AcquireView<T>>,
    now: u128,
    post: PoolView<T, W>,
) -> bool {
    match state {
        Some(AcquireView::Resolve(resolve)) => resolve_dropped(p, hook, resolve, now, post),
        Some(AcquireView::Waiting(id)) => {
            let left = PoolView { waits: p.waits.update(id, after_leave(p.waits[id])), ..p };
            match taken_by_cancel(p.waits[id].shot) {
                Some(resolve) => resolve_dropped(left, hook, resolve, now, post),
                None => post == left,
            }
        },
        _ => post == p,
    }
}

/// Check that giving up a resource, or the prospect of one, leads from one state
/// of a pool to another.
pub open spec fn resolve_dropped<T, W, R: Fn(T, ResourceInfo) -> (T, bool)>(
    p: PoolView<T, W>,
    hook: Option<R>,
    resolve: Resolve<T>,
    now: u128,
    post: PoolView<T, W>,
) -> bool {
    match resolve {
        ResourceResolve::Future(operation) => post == after_spawn(p, operation),
        ResourceResolve::Resource(Some(guard)) => {
            &&& released(p.shared, hook, guard@, now, post.shared)
            &&& post == with_shared(p, post.shared)
        },
        ResourceResolve::Resource(None) => post == p,
    }
}

} // verus!
