//! Getting a resource out of a pool.

use vstd::prelude::*;

use crate::dropshot::{attempt, taken_by_cancel, Attempt, Canceled};
use crate::pool::error::AcquireError;
use crate::pool::internal::PoolInternal;
use crate::pool::pool::Pool;
use crate::pool::model::{
    after_drop_handle, after_idle, after_look, after_spawn, after_try_create, after_try_wait,
    extends, idle_resource, lemma_after_idle, may_wait, resolve_known, try_created, with_shared,
    Access, Guard, PoolView, Resolve,
};
use crate::resource::info::ResourceInfo;
use crate::resource::lock::{known, GuardView, ResourceGuard};
use crate::resource::managed::Managed;
use crate::resource::operation::{resource_create, resource_verify, Operation, ResourceResolve};
use crate::shared::{after_dispose, in_time, later, released, returned};
use crate::wait::{after_leave, attended, Waiter};

verus! {

broadcast use {
    PoolInternal::lemma_wf,
    ResourceGuard::lemma_of,
    ResourceGuard::lemma_view,
};

/// What came of work on a resource.
pub enum Done<T> {
    /// It was created.
    Created(T),
    /// It was checked whether it is still good.
    Verified(bool),
}

/// Where a request for a resource stands.
pub enum AcquirePoll<T, E> {
    /// It is decided.
    Ready(Result<Managed<ResourceInfo, T>, AcquireError<E>>),
    /// The manager has yet to reply.
    Pending,
    /// Work on a resource has to be completed first.
    Evaluate,
}

/// How far a request for a resource has come.
pub ghost enum AcquireView<T> {
    /// Nothing was tried yet.
    Init,
    /// There is a resource, or the prospect of one.
    Resolve(Resolve<T>),
    /// The manager is to reply at a place.
    Waiting(int),
}

/// The answer to a request for a resource.
pub ghost enum Answer<T> {
    /// Here is the resource.
    Granted(Access<T>),
    /// Too many wait.
    Busy,
    /// The request was answered before.
    Closed,
    /// The manager does not reply, or the work on a resource took too long.
    Timeout,
    /// The manager has yet to reply.
    Pending,
    /// Work on a resource has to be completed first.
    Evaluate,
}

/// What there is after a request for a resource was taken further.
#[verifier::ext_equal]
pub ghost struct Progress<T, W> {
    /// The pool.
    pub pool: PoolView<T, W>,
    /// How far the request has come, unless it is decided.
    pub state: Option<AcquireView<T>>,
    /// The answer.
    pub answer: Answer<T>,
}

/// Check that an answer is the one that was given.
pub open spec fn answers<T, E>(r: AcquirePoll<T, E>, answer: Answer<T>) -> bool {
    match answer {
        Answer::Granted(guard) => r matches AcquirePoll::Ready(Ok(managed)) && managed@ == guard,
        Answer::Busy => r matches AcquirePoll::Ready(Err(AcquireError::PoolBusy)),
        Answer::Closed => r matches AcquirePoll::Ready(Err(AcquireError::PoolClosed)),
        Answer::Timeout => r matches AcquirePoll::Ready(Err(AcquireError::Timeout)),
        Answer::Pending => r is Pending,
        Answer::Evaluate => r is Evaluate,
    }
}

/// A pool after a resource that has expired was returned.
pub open spec fn after_reject<T, W>(p: PoolView<T, W>, guard: Access<T>, now: u128) -> PoolView<
    T,
    W,
> {
    with_shared(p, after_dispose(p.shared, returned(guard, now)))
}

/// A pool after work on a resource failed. It is no longer counted, which the
/// manager learns.
pub open spec fn after_failure<T, W>(p: PoolView<T, W>, guard: Access<T>) -> PoolView<T, W> {
    with_shared(p, after_dispose(p.shared, guard))
}

/// A request for a resource at its beginning.
///
/// Resources that were returned come first. If there is none, one is created. If
/// there may not be another, the manager is asked for one, unless too many wait.
pub open spec fn from_init<T, W>(p: PoolView<T, W>, start: u128, now: u128, waker: W) -> Progress<
    T,
    W,
>
    decreases p.shared.idle.len(),
{
    proof {
        lemma_after_idle(p.shared, p.verify, now);
    }
    let found = idle_resource(p.shared, p.verify, now);
    let q = with_shared(p, after_idle(p.shared, p.verify, now));
    match found {
        ResourceResolve::Resource(Some(guard)) => if guard@.info.expired {
            from_init(after_reject(q, guard@, now), start, now, waker)
        } else {
            Progress { pool: q, state: None, answer: Answer::Granted(guard@) }
        },
        ResourceResolve::Future(_) => Progress {
            pool: q,
            state: Some(AcquireView::Resolve(found)),
            answer: Answer::Evaluate,
        },
        ResourceResolve::Resource(None) => {
            let made = try_created(q.shared, now);
            let m = with_shared(q, after_try_create(q.shared));
            if made is Future {
                Progress {
                    pool: m,
                    state: Some(AcquireView::Resolve(made)),
                    answer: Answer::Evaluate,
                }
            } else if may_wait(m.shared) {
                let id = m.waits.len() as int;
                Progress {
                    pool: after_look(after_try_wait(m, start), id, waker),
                    state: Some(AcquireView::Waiting(id)),
                    answer: Answer::Pending,
                }
            } else {
                Progress { pool: m, state: None, answer: Answer::Busy }
            }
        },
    }
}

/// A request for which there is a resource. One that has expired is returned, and
/// the request starts over.
pub open spec fn from_guard<T, W>(
    p: PoolView<T, W>,
    guard: Access<T>,
    start: u128,
    now: u128,
    waker: W,
) -> Progress<T, W> {
    if guard.info.expired {
        from_init(after_reject(p, guard, now), start, now, waker)
    } else {
        Progress { pool: p, state: None, answer: Answer::Granted(guard) }
    }
}

/// Check that the time that a request may take is over.
pub open spec fn is_late<T, W>(p: PoolView<T, W>, start: u128, now: u128) -> bool {
    later(start, p.acquire_timeout) matches Some(at) && at < now
}

/// A request for which there is a resource, or the prospect of one. A prospect has
/// to come true in time. Otherwise the work on it goes on in the background.
pub open spec fn from_resolve<T, W>(
    p: PoolView<T, W>,
    resolve: Resolve<T>,
    start: u128,
    now: u128,
    waker: W,
) -> Progress<T, W> {
    match resolve {
        ResourceResolve::Resource(Some(guard)) => from_guard(p, guard@, start, now, waker),
        ResourceResolve::Resource(None) => from_init(p, start, now, waker),
        ResourceResolve::Future(operation) => if is_late(p, start, now) {
            Progress { pool: after_spawn(p, operation), state: None, answer: Answer::Timeout }
        } else {
            Progress {
                pool: p,
                state: Some(AcquireView::Resolve(resolve)),
                answer: Answer::Evaluate,
            }
        },
    }
}

/// A request to which the manager is to reply.
pub open spec fn from_waiting<T, W>(
    p: PoolView<T, W>,
    id: int,
    start: u128,
    now: u128,
    waker: W,
) -> Progress<T, W> {
    let q = after_look(p, id, waker);
    match attempt(p.waits[id].shot, true) {
        Attempt::Ready(Ok(resolve)) => from_resolve(q, resolve, start, now, waker),
        Attempt::Ready(Err(_)) => Progress { pool: q, state: None, answer: Answer::Timeout },
        _ => Progress {
            pool: q,
            state: Some(AcquireView::Waiting(id)),
            answer: Answer::Pending,
        },
    }
}

/// A request for a resource, taken further.
pub open spec fn progress<T, W>(
    p: PoolView<T, W>,
    state: Option<AcquireView<T>>,
    start: u128,
    now: u128,
    waker: W,
) -> Progress<T, W> {
    match state {
        None => Progress { pool: p, state: None, answer: Answer::Closed },
        Some(AcquireView::Init) => from_init(p, start, now, waker),
        Some(AcquireView::Resolve(resolve)) => from_resolve(p, resolve, start, now, waker),
        Some(AcquireView::Waiting(id)) => from_waiting(p, id, start, now, waker),
    }
}

/// The guard of a resource on which work was completed.
pub open spec fn completed<T>(guard: Access<T>, done: Done<T>, now: u128) -> Access<T> {
    match done {
        Done::Created(value) => GuardView {
            info: ResourceInfo { created_at: Some(now), ..guard.info },
            value: Some(value),
            ..guard
        },
        Done::Verified(good) => GuardView {
            info: ResourceInfo { expired: guard.info.expired || !good, ..guard.info },
            ..guard
        },
    }
}

/// Check that there is room for another resource and another waiter.
pub open spec fn has_room<T, W>(p: PoolView<T, W>) -> bool {
    &&& p.shared.cells.len() < usize::MAX
    &&& p.shared.waiter_count < usize::MAX
    &&& p.waits.len() < usize::MAX
}

enum AcquireState<T> {
    Init,
    Resolve(Resolve<T>),
    Waiting(Waiter),
}

/// A request for a resource, which has a handle to the pool.
pub struct Acquire<T> {
    pool: Pool,
    start: u128,
    state: Option<AcquireState<T>>,
}

impl<T> Acquire<T> {
    /// How far the request has come, unless it is decided.
    pub closed spec fn state(&self) -> Option<AcquireView<T>> {
        match self.state {
            None => None,
            Some(AcquireState::Init) => Some(AcquireView::Init),
            Some(AcquireState::Resolve(resolve)) => Some(AcquireView::Resolve(resolve)),
            Some(AcquireState::Waiting(waiter)) => Some(AcquireView::Waiting(waiter.id())),
        }
    }

    /// When the request was made.
    pub closed spec fn start(&self) -> u128 {
        self.start
    }

    /// Check that what the request has is in a pool.
    pub open spec fn valid<W>(&self, p: PoolView<T, W>) -> bool {
        match self.state() {
            Some(AcquireView::Resolve(resolve)) => resolve_known(p.shared.cells, resolve),
            Some(AcquireView::Waiting(id)) => 0 <= id < p.waits.len() && attended(p.waits[id]),
            _ => true,
        }
    }

    /// Request a resource.
    pub fn acquire(pool: Pool, start: u128) -> (r: Self)
        ensures
            r.state() == Some(AcquireView::<T>::Init),
            r.start() == start,
    {
        Acquire { pool, start, state: Some(AcquireState::Init) }
    }

    /// Take the request further.
    pub fn poll<W, R, E>(
        &mut self,
        pool: &mut PoolInternal<T, W, R>,
        now: u128,
        waker: W,
    ) -> (r: AcquirePoll<T, E>) where R: Fn(T, ResourceInfo) -> (T, bool)
        requires
            old(pool).wf(),
            old(self).valid(old(pool)@),
            has_room(old(pool)@),
            in_time(now, old(pool)@.shared.idle_timeout),
            in_time(old(self).start(), old(pool)@.acquire_timeout),
        ensures
            final(pool).wf(),
            final(pool).same_setup(old(pool)),
            extends(old(pool)@, final(pool)@),
            final(self).valid(final(pool)@),
            final(self).start() == old(self).start(),
            ({
                let next = progress(
                    old(pool)@,
                    old(self).state(),
                    old(self).start(),
                    now,
                    waker,
                );
                &&& final(pool)@ == next.pool
                &&& final(self).state() == next.state
                &&& answers(r, next.answer)
                &&& r matches AcquirePoll::Ready(Ok(managed)) ==> known(
                    final(pool)@.shared.cells,
                    managed@.lock,
                )
            }),
    {
        match self.state.take() {
            // already completed
            None => AcquirePoll::Ready(Err(AcquireError::PoolClosed)),
            Some(AcquireState::Init) => self.init(pool, now, waker),
            Some(AcquireState::Resolve(resolve)) => self.resolve(pool, resolve, now, waker),
            Some(AcquireState::Waiting(waiter)) => {
                if pool.is_decided(&waiter) {
                    let ghost before = pool@;
                    let reply: Result<Resolve<T>, Canceled> = pool.receive(&waiter);
                    assert(pool@ == after_look(before, waiter.id(), waker));
                    match reply {
                        Ok(resolve) => self.resolve(pool, resolve, now, waker),
                        Err(_) => AcquirePoll::Ready(Err(AcquireError::Timeout)),
                    }
                } else {
                    let _ = pool.poll_wait(&waiter, waker);
                    self.state = Some(AcquireState::Waiting(waiter));
                    AcquirePoll::Pending
                }
            },
        }
    }

    fn resolve<W, R, E>(
        &mut self,
        pool: &mut PoolInternal<T, W, R>,
        resolve: Resolve<T>,
        now: u128,
        waker: W,
    ) -> (r: AcquirePoll<T, E>) where R: Fn(T, ResourceInfo) -> (T, bool)
        requires
            old(pool).wf(),
            old(self).state() is None,
            resolve_known(old(pool)@.shared.cells, resolve),
            has_room(old(pool)@),
            in_time(now, old(pool)@.shared.idle_timeout),
            in_time(old(self).start(), old(pool)@.acquire_timeout),
        ensures
            final(pool).wf(),
            final(pool).same_setup(old(pool)),
            extends(old(pool)@, final(pool)@),
            final(self).valid(final(pool)@),
            final(self).start() == old(self).start(),
            ({
                let next = from_resolve(old(pool)@, resolve, old(self).start(), now, waker);
                &&& final(pool)@ == next.pool
                &&& final(self).state() == next.state
                &&& answers(r, next.answer)
                &&& r matches AcquirePoll::Ready(Ok(managed)) ==> known(
                    final(pool)@.shared.cells,
                    managed@.lock,
                )
            }),
    {
        match resolve {
            ResourceResolve::Resource(Some(guard)) => self.settle(pool, guard, now, waker),
            // Something went wrong during the resolve, start over
            ResourceResolve::Resource(None) => self.init(pool, now, waker),
            ResourceResolve::Future(operation) => {
                let late: bool = match pool.deadline(self.start) {
                    Some(at) => at < now,
                    None => false,
                };
                if late {
                    // Have the work completed in the background
                    pool.release_future(operation);
                    AcquirePoll::Ready(Err(AcquireError::Timeout))
                } else {
                    self.state = Some(
                        AcquireState::Resolve(ResourceResolve::Future(operation)),
                    );
                    AcquirePoll::Evaluate
                }
            },
        }
    }

    fn settle<W, R, E>(
        &mut self,
        pool: &mut PoolInternal<T, W, R>,
        guard: Guard<T>,
        now: u128,
        waker: W,
    ) -> (r: AcquirePoll<T, E>) where R: Fn(T, ResourceInfo) -> (T, bool)
        requires
            old(pool).wf(),
            old(self).state() is None,
            known(old(pool)@.shared.cells, guard@.lock),
            has_room(old(pool)@),
            in_time(now, old(pool)@.shared.idle_timeout),
            in_time(old(self).start(), old(pool)@.acquire_timeout),
        ensures
            final(pool).wf(),
            final(pool).same_setup(old(pool)),
            extends(old(pool)@, final(pool)@),
            final(self).valid(final(pool)@),
            final(self).start() == old(self).start(),
            ({
                let next = from_guard(old(pool)@, guard@, old(self).start(), now, waker);
                &&& final(pool)@ == next.pool
                &&& final(self).state() == next.state
                &&& answers(r, next.answer)
                &&& r matches AcquirePoll::Ready(Ok(managed)) ==> known(
                    final(pool)@.shared.cells,
                    managed@.lock,
                )
            }),
    {
        if guard.info().expired {
            pool.release(guard, now);
            // retry
            self.init(pool, now, waker)
        } else {
            AcquirePoll::Ready(Ok(Managed::new(guard)))
        }
    }

    fn init<W, R, E>(
        &mut self,
        pool: &mut PoolInternal<T, W, R>,
        now: u128,
        waker: W,
    ) -> (r: AcquirePoll<T, E>) where R: Fn(T, ResourceInfo) -> (T, bool)
        requires
            old(pool).wf(),
            old(self).state() is None,
            old(pool)@.shared.cells.len() < usize::MAX,
            old(pool)@.shared.waiter_count < usize::MAX,
            old(pool)@.waits.len() < usize::MAX,
            in_time(now, old(pool)@.shared.idle_timeout),
            in_time(old(self).start(), old(pool)@.acquire_timeout),
        ensures
            final(pool).wf(),
            final(pool).same_setup(old(pool)),
            extends(old(pool)@, final(pool)@),
            final(self).valid(final(pool)@),
            final(self).start() == old(self).start(),
            ({
                let next = from_init(old(pool)@, old(self).start(), now, waker);
                &&& final(pool)@ == next.pool
                &&& final(self).state() == next.state
                &&& answers(r, next.answer)
                &&& r matches AcquirePoll::Ready(Ok(managed)) ==> known(
                    final(pool)@.shared.cells,
                    managed@.lock,
                )
            }),
    {
        loop
            invariant
                pool.wf(),
                pool.same_setup(old(pool)),
                extends(old(pool)@, pool@),
                self.state() is None,
                self.start() == old(self).start(),
                pool@.shared.cells.len() < usize::MAX,
                pool@.shared.waiter_count < usize::MAX,
                pool@.waits.len() < usize::MAX,
                in_time(now, pool@.shared.idle_timeout),
                in_time(self.start(), pool@.acquire_timeout),
                from_init(pool@, self.start(), now, waker) == from_init(
                    old(pool)@,
                    old(self).start(),
                    now,
                    waker,
                ),
            decreases pool@.shared.idle.len(),
        {
            let ghost before = pool@;
            proof {
                lemma_after_idle(before.shared, before.verify, now);
            }
            // Try to acquire from the idle queue
            let found: Resolve<T> = pool.try_acquire_idle(now);
            match found {
                ResourceResolve::Resource(Some(guard)) => {
                    if guard.info().expired {
                        pool.release(guard, now);
                        // retry
                    } else {
                        return AcquirePoll::Ready(Ok(Managed::new(guard)));
                    }
                },
                ResourceResolve::Future(_) => {
                    // Evaluate the attached work
                    self.state = Some(AcquireState::Resolve(found));
                    return AcquirePoll::Evaluate;
                },
                ResourceResolve::Resource(None) => {
                    // Queue is empty, try to create a new resource
                    let made: Resolve<T> = pool.try_create(now);
                    if !made.is_empty() {
                        self.state = Some(AcquireState::Resolve(made));
                        return AcquirePoll::Evaluate;
                    }
                    // Register a waiter
                    match pool.try_wait(self.start) {
                        Some(waiter) => {
                            let _ = pool.poll_wait(&waiter, waker);
                            self.state = Some(AcquireState::Waiting(waiter));
                            return AcquirePoll::Pending;
                        },
                        None => {
                            return AcquirePoll::Ready(Err(AcquireError::PoolBusy));
                        },
                    }
                },
            }
        }
    }
}

impl<T> Acquire<T> {
    /// The time up to which the request may take, if there is one.
    pub fn deadline<W, R>(&self, pool: &PoolInternal<T, W, R>) -> (r: Option<u128>) where
        R: Fn(T, ResourceInfo) -> (T, bool),

        requires
            in_time(self.start(), pool@.acquire_timeout),
        ensures
            r == later(self.start(), pool@.acquire_timeout),
    {
        pool.deadline(self.start)
    }

    /// The work that has to be completed first, if there is any.
    pub fn operation(&self) -> (r: Option<&Operation<ResourceInfo, T>>)
        ensures
            match self.state() {
                Some(AcquireView::Resolve(ResourceResolve::Future(operation))) => r == Some(
                    &operation,
                ),
                _ => r is None,
            },
    {
        match &self.state {
            Some(AcquireState::Resolve(ResourceResolve::Future(operation))) => Some(operation),
            _ => None,
        }
    }

    /// The resource on which work is going on.
    pub fn value_mut(&mut self) -> (r: &mut Option<T>)
        requires
            old(self).state() matches Some(AcquireView::Resolve(ResourceResolve::Future(_))),
        ensures
            ({
                let operation = old(self).state()->0->Resolve_0->Future_0;
                &&& *r == operation.guard@.value
                &&& final(self).start() == old(self).start()
                &&& final(self).state() == Some(
                    AcquireView::Resolve(
                        ResourceResolve::Future(
                            Operation {
                                work: operation.work,
                                guard: ResourceGuard::of(
                                    GuardView { value: *final(r), ..operation.guard@ },
                                ),
                            },
                        ),
                    ),
                )
            }),
    {
        match &mut self.state {
            Some(AcquireState::Resolve(ResourceResolve::Future(operation))) =>
                operation.guard.value_mut(),
            _ => vstd::pervasive::unreached(),
        }
    }

    /// Take in the outcome of the work, and take the request further.
    pub fn complete<W, R, E>(
        &mut self,
        pool: &mut PoolInternal<T, W, R>,
        outcome: Result<Done<T>, E>,
        now: u128,
        waker: W,
    ) -> (r: AcquirePoll<T, E>) where R: Fn(T, ResourceInfo) -> (T, bool)
        requires
            old(pool).wf(),
            old(self).valid(old(pool)@),
            old(self).state() matches Some(AcquireView::Resolve(ResourceResolve::Future(_))),
            ({
                let operation = old(self).state()->0->Resolve_0->Future_0;
                outcome is Ok ==> (outcome->Ok_0 is Created <==> operation.work is Create) && (
                outcome->Ok_0 is Created ==> operation.guard@.value is None)
            }),
            has_room(old(pool)@),
            in_time(now, old(pool)@.shared.idle_timeout),
            in_time(old(self).start(), old(pool)@.acquire_timeout),
        ensures
            final(pool).wf(),
            final(pool).same_setup(old(pool)),
            extends(old(pool)@, final(pool)@),
            final(self).valid(final(pool)@),
            final(self).start() == old(self).start(),
            ({
                let guard = old(self).state()->0->Resolve_0->Future_0.guard@;
                match outcome {
                    Err(err) => {
                        &&& r matches AcquirePoll::Ready(Err(AcquireError::ResourceError(e)))
                        &&& e == err
                        &&& final(self).state() is None
                        &&& final(pool)@ == after_failure(old(pool)@, guard)
                    },
                    Ok(done) => {
                        let next = from_guard(
                            old(pool)@,
                            completed(guard, done, now),
                            old(self).start(),
                            now,
                            waker,
                        );
                        &&& final(pool)@ == next.pool
                        &&& final(self).state() == next.state
                        &&& answers(r, next.answer)
                        &&& r matches AcquirePoll::Ready(Ok(managed)) ==> known(
                            final(pool)@.shared.cells,
                            managed@.lock,
                        )
                    },
                }
            }),
    {
        match self.state.take() {
            Some(AcquireState::Resolve(ResourceResolve::Future(operation))) => {
                let guard: Guard<T> = operation.guard;
                let finished: Result<Guard<T>, (E, Guard<T>)> = match outcome {
                    Ok(Done::Created(value)) => resource_create(guard, Ok(value), now),
                    Ok(Done::Verified(good)) => resource_verify(guard, Ok(good)),
                    Err(err) => Err((err, guard)),
                };
                match finished {
                    Ok(guard) => self.settle(pool, guard, now, waker),
                    Err((err, guard)) => {
                        pool.abandon(guard);
                        AcquirePoll::Ready(Err(AcquireError::ResourceError(err)))
                    },
                }
            },
            _ => vstd::pervasive::unreached(),
        }
    }

    /// Give the request up, and the handle to the pool with it. Work that is going
    /// on is completed in the background, and a resource that is there is returned.
    pub fn drop<W, R>(self, pool: &mut PoolInternal<T, W, R>, now: u128) where
        R: Fn(T, ResourceInfo) -> (T, bool),

        requires
            old(pool).wf(),
            self.valid(old(pool)@),
            old(pool)@.handles > 0,
            in_time(now, old(pool)@.shared.idle_timeout),
        ensures
            final(pool).wf(),
            final(pool).same_setup(old(pool)),
            request_dropped(
                after_drop_handle(old(pool)@),
                old(pool).hook(),
                self.state(),
                now,
                final(pool)@,
            ),
    {
        self.pool.drop(pool);
        match self.state {
            None | Some(AcquireState::Init) => {},
            Some(AcquireState::Resolve(resolve)) => pool.complete_resolve(resolve, now),
            Some(AcquireState::Waiting(waiter)) => {
                if let Some(resolve) = pool.drop_wait(waiter) {
                    pool.complete_resolve(resolve, now);
                }
            },
        }
    }
}

/// Check that giving up a request leads from one state of a pool to another.
pub open spec fn request_dropped<T, W, R: Fn(T, ResourceInfo) -> (T, bool)>(
    p: PoolView<T, W>,
    hook: Option<R>,
    state: Option<AcquireView<T>>,
    now: u128,
    post: PoolView<T, W>,
) -> bool {
    match state {
        Some(AcquireView::Resolve(resolve)) => resolve_dropped(p, hook, resolve, now, post),
        Some(AcquireView::Waiting(id)) => {
            let left = PoolView { waits: p.waits.update(id, after_leave(p.waits[id])), ..p };
            match taken_by_cancel(p.waits[id].shot) {
                Some(resolve) => resolve_dropped(left, hook, resolve, now, post),
                None => post == left,
            }
        },
        _ => post == p,
    }
}

/// Check that giving up a resource, or the prospect of one, leads from one state
/// of a pool to another.
pub open spec fn resolve_dropped<T, W, R: Fn(T, ResourceInfo) -> (T, bool)>(
    p: PoolView<T, W>,
    hook: Option<R>,
    resolve: Resolve<T>,
    now: u128,
    post: PoolView<T, W>,
) -> bool {
    match resolve {
        ResourceResolve::Future(operation) => post == after_spawn(p, operation),
        ResourceResolve::Resource(Some(guard)) => {
            &&& released(p.shared, hook, guard@, now, post.shared)
            &&& post == with_shared(p, post.shared)
        },
        ResourceResolve::Resource(None) => post == p,
    }
}

} // verus!
