//! Getting a resource out of such a pool.

use vstd::prelude::*;

use crate::arp::error::AcquireError;
use crate::lifecycle::info::ResourceInfo;
use crate::lifecycle::inner::PoolInner;
use crate::lifecycle::model::{
    after_drop_handle, after_idle, after_spawn, after_try_create, extends, idle_resource,
    try_created, with_queue, Access, Guard, PoolView, Resolve,
};
use crate::lifecycle::pool::Pool;
use crate::lifecycle::queue::{after_release, QueueView};
use crate::pool::model::resolve_known;
use crate::resource::lock::{after_unlock, known, GuardView, ResourceGuard};
use crate::resource::managed::Managed;
use crate::resource::operation::{Operation, ResourceResolve};
use crate::shared::in_time;

verus! {

broadcast use {
    PoolInner::lemma_wf,
    ResourceGuard::lemma_of,
    ResourceGuard::lemma_view,
};

/// Where a request for a resource stands.
pub enum AcquirePoll<T, E> {
    /// It is decided.
    Ready(Result<Managed<ResourceInfo, T>, AcquireError<E>>),
    /// There is no resource at the moment: ask again.
    Again,
    /// A resource has to be created first.
    Evaluate,
}

/// How far a request for a resource has come.
pub ghost enum AcquireView<T> {
    /// Nothing was found yet.
    Init,
    /// There is a resource, or the prospect of one.
    Resolve(Resolve<T>),
}

/// The answer to a request for a resource.
pub ghost enum Answer<T> {
    /// Here is the resource.
    Granted(Access<T>),
    /// The request was answered before.
    Stopped,
    /// There is no resource at the moment.
    Again,
    /// A resource has to be created first.
    Evaluate,
}

/// What there is after a request for a resource was taken further.
#[verifier::ext_equal]
pub ghost struct Progress<T, W> {
    /// The pool.
    pub pool: PoolView<T, W>,
    /// How far the request has come, unless it is decided.
    pub state: Option<AcquireView<T>>,
    /// The answer.
    pub answer: Answer<T>,
}

/// Check that an answer is the one that was given.
pub open spec fn answers<T, E>(r: AcquirePoll<T, E>, answer: Answer<T>) -> bool {
    match answer {
        Answer::Granted(guard) => r matches AcquirePoll::Ready(Ok(managed)) && managed@ == guard,
        Answer::Stopped => r matches AcquirePoll::Ready(Err(AcquireError::Stopped)),
        Answer::Again => r is Again,
        Answer::Evaluate => r is Evaluate,
    }
}

/// A request for a resource at its beginning.
///
/// Resources that were returned come first. If there is none, one is created.
pub open spec fn from_init<T, W>(p: PoolView<T, W>, now: u128) -> Progress<T, W> {
    let found = idle_resource(p.queue, now);
    let q = with_queue(p, after_idle(p.queue));
    match found {
        ResourceResolve::Resource(Some(guard)) => Progress {
            pool: q,
            state: None,
            answer: Answer::Granted(guard@),
        },
        _ => {
            let made = try_created(q.queue, now);
            let m = with_queue(q, after_try_create(q.queue));
            if made is Future {
                Progress {
                    pool: m,
                    state: Some(AcquireView::Resolve(made)),
                    answer: Answer::Evaluate,
                }
            } else {
                Progress { pool: m, state: Some(AcquireView::Init), answer: Answer::Again }
            }
        },
    }
}

/// A request for a resource, taken further.
pub open spec fn progress<T, W>(
    p: PoolView<T, W>,
    state: Option<AcquireView<T>>,
    now: u128,
) -> Progress<T, W> {
    match state {
        None => Progress { pool: p, state: None, answer: Answer::Stopped },
        Some(AcquireView::Init) => from_init(p, now),
        Some(AcquireView::Resolve(resolve)) => match resolve {
            ResourceResolve::Resource(Some(guard)) => Progress {
                pool: p,
                state: None,
                answer: Answer::Granted(guard@),
            },
            ResourceResolve::Resource(None) => from_init(p, now),
            ResourceResolve::Future(_) => Progress { pool: p, state, answer: Answer::Evaluate },
        },
    }
}

/// The guard of a resource that was created.
pub open spec fn created<T>(guard: Access<T>, value: T, now: u128) -> Access<T> {
    GuardView {
        info: ResourceInfo { created_at: Some(now), ..guard.info },
        value: Some(value),
        ..guard
    }
}

/// Complete the creation of a resource.
///
/// The guard comes back with the error if the creation failed.
pub fn resource_create<T, E>(guard: Guard<T>, result: Result<T, E>, now: u128) -> (r: Result<
    Guard<T>,
    (E, Guard<T>),
>)
    requires
        guard@.value is None,
    ensures
        match result {
            Ok(value) => r is Ok && r->Ok_0@ == created(guard@, value, now),
            Err(err) => r is Err && r->Err_0.0 == err && r->Err_0.1@ == guard@,
        },
{
    let mut guard: Guard<T> = guard;
    match result {
        Ok(res) => {
            let _ = guard.replace(res);
            guard.info_mut().created_at = Some(now);
            Ok(guard)
        },
        Err(err) => Err((err, guard)),
    }
}

enum AcquireState<T> {
    Init,
    Resolve(Resolve<T>),
}

/// A request for a resource, which has a handle to the pool.
pub struct Acquire<T> {
    pool: Pool,
    start: u128,
    state: Option<AcquireState<T>>,
}

impl<T> Acquire<T> {
    /// How far the request has come, unless it is decided.
    pub closed spec fn state(&self) -> Option<AcquireView<T>> {
        match self.state {
            None => None,
            Some(AcquireState::Init) => Some(AcquireView::Init),
            Some(AcquireState::Resolve(resolve)) => Some(AcquireView::Resolve(resolve)),
        }
    }

    /// When the request was made.
    pub closed spec fn start(&self) -> u128 {
        self.start
    }

    /// Check that what the request has is in a pool.
    pub open spec fn valid<W>(&self, p: PoolView<T, W>) -> bool {
        match self.state() {
            Some(AcquireView::Resolve(resolve)) => resolve_known(p.queue.cells, resolve),
            _ => true,
        }
    }

    /// Request a resource.
    pub fn new(pool: Pool, start: u128) -> (r: Self)
        ensures
            r.state() == Some(AcquireView::<T>::Init),
            r.start() == start,
    {
        Acquire { pool, start, state: Some(AcquireState::Init) }
    }

    /// Take the request further.
    pub fn poll<W, E>(&mut self, pool: &mut PoolInner<T, W>, now: u128) -> (r: AcquirePoll<T, E>)
        requires
            old(pool).wf(),
            old(self).valid(old(pool)@),
            old(pool)@.queue.cells.len() < usize::MAX,
        ensures
            final(pool).wf(),
            extends(old(pool)@, final(pool)@),
            final(self).valid(final(pool)@),
            final(self).start() == old(self).start(),
            ({
                let next = progress(old(pool)@, old(self).state(), now);
                &&& final(pool)@ == next.pool
                &&& final(self).state() == next.state
                &&& answers(r, next.answer)
                &&& r matches AcquirePoll::Ready(Ok(managed)) ==> known(
                    final(pool)@.queue.cells,
                    managed@.lock,
                )
            }),
    {
        match self.state.take() {
            // already completed
            None => AcquirePoll::Ready(Err(AcquireError::Stopped)),
            Some(AcquireState::Resolve(resolve)) => match resolve {
                ResourceResolve::Resource(Some(guard)) => AcquirePoll::Ready(
                    Ok(Managed::new(guard)),
                ),
                // Something went wrong during the resolve, start over
                ResourceResolve::Resource(None) => self.init(pool, now),
                ResourceResolve::Future(_) => {
                    self.state = Some(AcquireState::Resolve(resolve));
                    AcquirePoll::Evaluate
                },
            },
            Some(AcquireState::Init) => self.init(pool, now),
        }
    }

    fn init<W, E>(&mut self, pool: &mut PoolInner<T, W>, now: u128) -> (r: AcquirePoll<T, E>)
        requires
            old(pool).wf(),
            old(self).state() is None,
            old(pool)@.queue.cells.len() < usize::MAX,
        ensures
            final(pool).wf(),
            extends(old(pool)@, final(pool)@),
            final(self).valid(final(pool)@),
            final(self).start() == old(self).start(),
            ({
                let next = from_init(old(pool)@, now);
                &&& final(pool)@ == next.pool
                &&& final(self).state() == next.state
                &&& answers(r, next.answer)
                &&& r matches AcquirePoll::Ready(Ok(managed)) ==> known(
                    final(pool)@.queue.cells,
                    managed@.lock,
                )
            }),
    {
        // Try to acquire from the idle queue
        match pool.try_acquire_idle(now) {
            ResourceResolve::Resource(Some(guard)) => AcquirePoll::Ready(Ok(Managed::new(guard))),
            _ => {
                // Queue is empty, try to create a new resource
                let made: Resolve<T> = pool.try_create(now);
                if made.is_empty() {
                    self.state = Some(AcquireState::Init);
                    AcquirePoll::Again
                } else {
                    self.state = Some(AcquireState::Resolve(made));
                    AcquirePoll::Evaluate
                }
            },
        }
    }

    /// The work that has to be completed first, if there is any.
    pub fn operation(&self) -> (r: Option<&Operation<ResourceInfo, T>>)
        ensures
            match self.state() {
                Some(AcquireView::Resolve(ResourceResolve::Future(operation))) => r == Some(
                    &operation,
                ),
                _ => r is None,
            },
    {
        match &self.state {
            Some(AcquireState::Resolve(ResourceResolve::Future(operation))) => Some(operation),
            _ => None,
        }
    }

    /// Take in the outcome of the creation of a resource.
    pub fn complete<W, E>(
        &mut self,
        pool: &mut PoolInner<T, W>,
        outcome: Result<T, E>,
        now: u128,
    ) -> (r: Result<Managed<ResourceInfo, T>, AcquireError<E>>)
        requires
            old(pool).wf(),
            old(self).valid(old(pool)@),
            old(self).state() matches Some(AcquireView::Resolve(ResourceResolve::Future(_))),
            old(self).state()->0->Resolve_0->Future_0.guard@.value is None,
        ensures
            final(pool).wf(),
            extends(old(pool)@, final(pool)@),
            final(self).state() is None,
            final(self).start() == old(self).start(),
            ({
                let guard = old(self).state()->0->Resolve_0->Future_0.guard@;
                match outcome {
                    Err(err) => {
                        &&& r matches Err(AcquireError::ResourceError(e))
                        &&& e == err
                        &&& final(pool)@ == with_queue(
                            old(pool)@,
                            QueueView {
                                cells: after_unlock(old(pool)@.queue.cells, guard),
                                ..old(pool)@.queue
                            },
                        )
                    },
                    Ok(value) => {
                        &&& r is Ok
                        &&& r->Ok_0@ == created(guard, value, now)
                        &&& known(final(pool)@.queue.cells, r->Ok_0@.lock)
                        &&& final(pool)@ == old(pool)@
                    },
                }
            }),
    {
        match self.state.take() {
            Some(AcquireState::Resolve(ResourceResolve::Future(operation))) => {
                match resource_create(operation.guard, outcome, now) {
                    Ok(guard) => Ok(Managed::new(guard)),
                    Err((err, guard)) => {
                        pool.abandon(guard);
                        Err(AcquireError::ResourceError(err))
                    },
                }
            },
            _ => vstd::pervasive::unreached(),
        }
    }

    /// Give the request up, and the handle to the pool with it. Work that is going
    /// on is completed in the background, and a resource that is there is returned.
    pub fn drop<W>(self, pool: &mut PoolInner<T, W>, now: u128)
        requires
            old(pool).wf(),
            self.valid(old(pool)@),
            old(pool)@.handles > 0,
            in_time(now, old(pool)@.queue.idle_timeout),
        ensures
            final(pool).wf(),
            final(pool)@ == after_drop_request(
                after_drop_handle(old(pool)@),
                self.state(),
                now,
            ),
    {
        self.pool.drop(pool);
        if let Some(AcquireState::Resolve(resolve)) = self.state {
            pool.complete_resolve(resolve, now);
        }
    }
}

/// A pool after a request was given up.
pub open spec fn after_drop_request<T, W>(
    p: PoolView<T, W>,
    state: Option<AcquireView<T>>,
    now: u128,
) -> PoolView<T, W> {
    match state {
        Some(AcquireView::Resolve(ResourceResolve::Future(operation))) => after_spawn(
            p,
            operation,
        ),
        Some(AcquireView::Resolve(ResourceResolve::Resource(Some(guard)))) => with_queue(
            p,
            after_release(p.queue, guard@, now),
        ),
        _ => p,
    }
}

} // verus!
