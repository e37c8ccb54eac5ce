//! The workings of a pool.
//!
//! Users of a pool and its manager act on one [`PoolInternal`]. What is left to
//! the caller piles up in it: resources that were disposed of, work to be done in
//! the background, wakers that are due, and the request to wake the manager.

use std::collections::VecDeque;

use vstd::prelude::*;

use crate::dropshot::{attempt, taken_by_cancel, Attempt, Canceled};
use crate::exchange::exchange;
use crate::pool::model::{
    acquired, after_ask_drain, after_cancel_drain, after_drop_handle, after_look, reply_known,
    resolve_known, after_cancel_wait, after_check, after_create, after_dismiss, after_events,
    after_evict, after_evictions, after_expire, expiry, round, after_idle, after_inbox,
    after_last_timers, after_manager_detach, after_news, after_register, after_requests,
    after_retain, after_serve, after_set_timer, after_spawn, after_start_drain, after_stop,
    after_stop_drain, after_try_create, after_try_wait, after_verify_or_dispose, after_waiter,
    also_woken, can_create, created_guard, detached, drain_timers, extends, fresh_pool, idle_offer,
    idle_resource, is_drained, lemma_drain_timers_add, lemma_drain_timers_bound, lemma_inv_repo,
    lemma_inv_shared, lemma_inv_timer, lemma_inv_waits, lemma_live_idle, lemma_waiting_first,
    may_wait, pool_inv, pool_inv_amid, register_known, served, timer_expires, timer_known,
    timers_expire, try_created, waiters_served, waiting_registers, with_mgr, with_shared, Access,
    Guard, ManagerView, PoolState, PoolView, Register, Resolve, Rest, Timer,
};
use crate::poll::Poll;
use crate::queue::Queue;
use crate::resource::info::ResourceInfo;
use crate::resource::lock::{known, ResourceGuard, ResourceLock};
use crate::resource::operation::{Operation, ResourceResolve, Work};
use crate::resource::repo::{self, lemma_repo};
use crate::shared::{
    after_dispose, callable, fresh_shared, in_time, later, released, Shared, SharedEvent,
    SharedView,
};
use crate::timers::{law_split, numbered_up_to, ordered, remaining, TimerEntry, Timers};
use crate::wait::{
    after_leave, after_poll_wait, arrives, attended, awaited, WaitResponder, Waiter, Waits,
};

verus! {

broadcast use {
    ResourceLock::lemma_at,
    ResourceLock::lemma_same,
    WaitResponder::lemma_at,
    WaitResponder::lemma_same,
    ResourceGuard::lemma_of,
    ResourceGuard::lemma_view,
    Shared::lemma_wf,
};

struct Manager {
    drain_count: usize,
    last_dispose_count: usize,
    repo: Vec<ResourceLock>,
    timer_id: usize,
    timers: Timers<Timer>,
    waiters: VecDeque<WaitResponder>,
}

impl Manager {
    spec fn view(&self) -> ManagerView {
        ManagerView {
            drain_count: self.drain_count,
            last_dispose_count: self.last_dispose_count,
            repo: self.repo@,
            timer_id: self.timer_id,
            timers: self.timers@,
            waiters: self.waiters@,
        }
    }
}

/// A pool.
pub struct PoolInternal<T, W, R> {
    shared: Shared<T, R>,
    acquire_timeout: Option<u128>,
    handle_error: bool,
    register_inject: Queue<Register>,
    state: PoolState,
    verify: bool,
    waits: Waits<Resolve<T>, W>,
    drains: Waits<bool, W>,
    spawned: Vec<Operation<ResourceInfo, T>>,
    woken: Vec<W>,
    handles: usize,
    mgr: Manager,
}

impl<T, W, R> View for PoolInternal<T, W, R> {
    type V = PoolView<T, W>;

    closed spec fn view(&self) -> PoolView<T, W> {
        PoolView {
            shared: self.shared@,
            acquire_timeout: self.acquire_timeout,
            registers: self.register_inject.items(),
            state: self.state,
            verify: self.verify,
            waits: self.waits@,
            drains: self.drains@,
            spawned: self.spawned@,
            woken: self.woken@,
            handles: self.handles,
            mgr: self.mgr@,
        }
    }
}

/// One attempt at creating a resource.
#[derive(Debug)]
pub enum CreateAttempt<T> {
    /// Its creation has started.
    Started(Resolve<T>),
    /// There are as many resources as there may be.
    Full,
    /// The number of resources has changed in the meantime.
    Changed(usize),
}

impl<T, W, R: Fn(T, ResourceInfo) -> (T, bool)> PoolInternal<T, W, R> {
    /// What holds of the parts.
    spec fn parts_wf(&self) -> bool {
        &&& self.shared.wf()
        &&& self.register_inject.boundless()
        &&& self.waits.wf()
        &&& self.drains.wf()
    }

    /// What holds of a pool at all times.
    pub closed spec fn wf(&self) -> bool {
        &&& self.parts_wf()
        &&& pool_inv(self@)
    }

    /// What holds of a pool at all times.
    pub broadcast proof fn lemma_wf(&self)
        requires
            #[trigger] self.wf(),
        ensures
            pool_inv(self@),
    {
    }

    /// The hook that is asked before a resource is kept.
    pub closed spec fn hook(&self) -> Option<R> {
        self.shared.hook()
    }

    /// Whether somebody wants to see the errors of work in the background.
    pub closed spec fn handles_errors(&self) -> bool {
        self.handle_error
    }

    /// What does not change.
    pub open spec fn same_setup(&self, other: &Self) -> bool {
        &&& self.hook() == other.hook()
        &&& self.handles_errors() == other.handles_errors()
    }

    /// Create a pool.
    pub fn new(
        acquire_timeout: Option<u128>,
        handle_error: bool,
        idle_timeout: Option<u128>,
        min_count: usize,
        max_count: usize,
        max_waiters: Option<usize>,
        on_release: Option<R>,
        verify: bool,
    ) -> (r: Self)
        requires
            callable::<T, R>(on_release),
        ensures
            r.wf(),
            r.hook() == on_release,
            r.handles_errors() == handle_error,
            r@ == fresh_pool::<T, W>(
                fresh_shared(min_count, max_count, max_waiters, idle_timeout),
                acquire_timeout,
                verify,
            ),
    {
        let shared: Shared<T, R> = Shared::new(
            on_release,
            min_count,
            max_count,
            max_waiters,
            idle_timeout,
        );
        PoolInternal {
            shared,
            acquire_timeout,
            handle_error,
            register_inject: Queue::unbounded(),
            state: PoolState::Active,
            verify,
            waits: Waits::new(),
            drains: Waits::new(),
            spawned: Vec::new(),
            woken: Vec::new(),
            handles: 1,
            mgr: Manager {
                drain_count: 0,
                last_dispose_count: 0,
                repo: Vec::new(),
                timer_id: 0,
                timers: Timers::new(),
                waiters: VecDeque::new(),
            },
        }
    }

    /// Start the creation of a resource that was counted.
    pub fn create(&mut self, now: u128) -> (r: Resolve<T>)
        requires
            old(self).wf(),
            old(self)@.shared.cells.len() < usize::MAX,
        ensures
            final(self).wf(),
            final(self).same_setup(old(self)),
            extends(old(self)@, final(self)@),
            r == ResourceResolve::<ResourceInfo, T>::Future(
                Operation {
                    work: Work::Create,
                    guard: ResourceGuard::of(created_guard(old(self)@.shared, now)),
                },
            ),
            final(self)@ == with_shared(old(self)@, after_create(old(self)@.shared)),
    {
        let mut info: ResourceInfo = ResourceInfo::default(now);
        info.reusable = self.shared.can_reuse();
        info.last_acquire = Some(now);
        info.acquire_count = 1;

        let guard: Guard<T> = self.shared.create_lock(info);

        // Send the resource lock into the repo, for collection later
        self.shared.push_event(SharedEvent::Created(guard.as_lock()));
        proof {
            lemma_inv_shared(old(self)@, self.shared@, 0);
            assert(guard@ == created_guard(old(self)@.shared, now));
        }
        ResourceResolve::Future(Operation { work: Work::Create, guard })
    }

    /// The number of resources, if another may be created.
    pub fn create_from_count(&self) -> (r: Option<usize>)
        ensures
            r == (if can_create(self@.shared) {
                Some(self@.shared.count)
            } else {
                None
            }),
    {
        let count: usize = self.shared.count();
        let max: usize = self.shared.max_count();
        if max == 0 || max > count {
            Some(count)
        } else {
            None
        }
    }

    /// Report an error of work in the background. Returns the error if somebody
    /// wants to see it.
    pub fn handle_error<E>(&self, err: E) -> (r: Option<E>)
        ensures
            r == (if self.handles_errors() {
                Some(err)
            } else {
                None
            }),
    {
        if self.handle_error {
            Some(err)
        } else {
            None
        }
    }

    /// Attempt to create a resource, given the number of resources that was seen
    /// last.
    pub fn attempt_create(&mut self, count: usize, now: u128) -> (r: CreateAttempt<T>)
        requires
            old(self).wf(),
            old(self)@.shared.cells.len() < usize::MAX,
            old(self)@.shared.max_count > 0 ==> count < old(self)@.shared.max_count,
        ensures
            final(self).wf(),
            final(self).same_setup(old(self)),
            extends(old(self)@, final(self)@),
            if old(self)@.shared.count == count {
                &&& r == CreateAttempt::Started(try_created(old(self)@.shared, now))
                &&& final(self)@ == with_shared(old(self)@, after_try_create(old(self)@.shared))
            } else {
                &&& final(self)@ == old(self)@
                &&& if can_create(old(self)@.shared) {
                    r == CreateAttempt::<T>::Changed(old(self)@.shared.count)
                } else {
                    r is Full
                }
            },
    {
        let max: usize = self.shared.max_count();
        match self.shared.try_update_count(count, count.wrapping_add(1)) {
            Ok(_) => {
                proof {
                    lemma_inv_shared(old(self)@, self.shared@, 0);
                }
                CreateAttempt::Started(self.create(now))
            },
            Err(c) => {
                if max != 0 && c >= max {
                    // Count was increased up to max by somebody else
                    CreateAttempt::Full
                } else {
                    CreateAttempt::Changed(c)
                }
            },
        }
    }

    /// Create a resource, if there may be another.
    pub fn try_create(&mut self, now: u128) -> (r: Resolve<T>)
        requires
            old(self).wf(),
            old(self)@.shared.cells.len() < usize::MAX,
        ensures
            final(self).wf(),
            final(self).same_setup(old(self)),
            extends(old(self)@, final(self)@),
            r == try_created(old(self)@.shared, now),
            resolve_known(final(self)@.shared.cells, r),
            final(self)@ == with_shared(old(self)@, after_try_create(old(self)@.shared)),
    {
        let mut count: usize = match self.create_from_count() {
            Some(c) => c,
            None => {
                return ResourceResolve::empty();
            },
        };
        loop
            invariant
                self.wf(),
                self.same_setup(old(self)),
                extends(old(self)@, self@),
                self@ == old(self)@,
                self@.shared.cells.len() < usize::MAX,
                can_create(self@.shared),
                count == self@.shared.count,
            decreases 0int,
        {
            match self.attempt_create(count, now) {
                CreateAttempt::Started(resolve) => {
                    return resolve;
                },
                CreateAttempt::Full => {
                    return ResourceResolve::empty();
                },
                CreateAttempt::Changed(c) => {
                    count = c;
                },
            }
        }
    }

    /// Have work done in the background, or return a resource that nobody took.
    pub fn complete_resolve(&mut self, res: Resolve<T>, now: u128)
        requires
            old(self).wf(),
            res matches ResourceResolve::Resource(Some(guard)) ==> known(
                old(self)@.shared.cells,
                guard@.lock,
            ),
            in_time(now, old(self)@.shared.idle_timeout),
        ensures
            final(self).wf(),
            final(self).same_setup(old(self)),
            extends(old(self)@, final(self)@),
            match res {
                ResourceResolve::Future(operation) => final(self)@ == after_spawn(
                    old(self)@,
                    operation,
                ),
                ResourceResolve::Resource(Some(guard)) => {
                    &&& released(
                        old(self)@.shared,
                        old(self).hook(),
                        guard@,
                        now,
                        final(self)@.shared,
                    )
                    &&& final(self)@ == with_shared(old(self)@, final(self)@.shared)
                },
                ResourceResolve::Resource(None) => final(self)@ == old(self)@,
            },
    {
        match res {
            ResourceResolve::Future(operation) => {
                self.spawned.push(operation);
                proof {
                    lemma_inv_waits(old(self)@, self@, 0);
                }
            },
            ResourceResolve::Resource(Some(guard)) => self.release(guard, now),
            ResourceResolve::Resource(None) => {},
        }
    }

    /// Have work done in the background that nobody waits for any more.
    pub fn release_future(&mut self, operation: Operation<ResourceInfo, T>)
        requires
            old(self).wf(),
        ensures
            final(self).wf(),
            final(self).same_setup(old(self)),
            extends(old(self)@, final(self)@),
            final(self)@ == after_spawn(old(self)@, operation),
    {
        self.spawned.push(operation);
        proof {
            lemma_inv_waits(old(self)@, self@, 0);
        }
    }

    /// Take in the outcome of work in the background. Returns the error that
    /// somebody wants to see.
    pub fn resolved<E>(&mut self, outcome: Option<Result<Guard<T>, (E, Guard<T>)>>, now: u128) -> (r:
        Option<E>)
        requires
            old(self).wf(),
            match outcome {
                Some(Ok(guard)) => known(old(self)@.shared.cells, guard@.lock),
                Some(Err((_, guard))) => known(old(self)@.shared.cells, guard@.lock),
                None => true,
            },
            in_time(now, old(self)@.shared.idle_timeout),
        ensures
            final(self).wf(),
            final(self).same_setup(old(self)),
            extends(old(self)@, final(self)@),
            match outcome {
                Some(Ok(guard)) => {
                    &&& r is None
                    &&& released(
                        old(self)@.shared,
                        old(self).hook(),
                        guard@,
                        now,
                        final(self)@.shared,
                    )
                    &&& final(self)@ == with_shared(old(self)@, final(self)@.shared)
                },
                Some(Err((err, guard))) => {
                    &&& r == (if old(self).handles_errors() {
                        Some(err)
                    } else {
                        None
                    })
                    &&& final(self)@ == with_shared(
                        old(self)@,
                        after_dispose(old(self)@.shared, guard@),
                    )
                },
                None => r is None && final(self)@ == old(self)@,
            },
    {
        match outcome {
            Some(Ok(guard)) => {
                self.release(guard, now);
                None
            },
            Some(Err((err, guard))) => {
                self.abandon(guard);
                self.handle_error(err)
            },
            None => None,
        }
    }

    /// Return a resource.
    pub fn release(&mut self, guard: Guard<T>, now: u128)
        requires
            old(self).wf(),
            known(old(self)@.shared.cells, guard@.lock),
            in_time(now, old(self)@.shared.idle_timeout),
        ensures
            final(self).wf(),
            final(self).same_setup(old(self)),
            extends(old(self)@, final(self)@),
            released(old(self)@.shared, old(self).hook(), guard@, now, final(self)@.shared),
            final(self)@ == with_shared(old(self)@, final(self)@.shared),
    {
        self.shared.release(guard, now);
        proof {
            lemma_inv_shared(old(self)@, self.shared@, 0);
        }
    }

    /// Give up a resource on which work failed. It is no longer counted, and what
    /// is left of it is disposed of.
    pub fn abandon(&mut self, guard: Guard<T>)
        requires
            old(self).wf(),
            known(old(self)@.shared.cells, guard@.lock),
        ensures
            final(self).wf(),
            final(self).same_setup(old(self)),
            extends(old(self)@, final(self)@),
            final(self)@ == with_shared(old(self)@, after_dispose(old(self)@.shared, guard@)),
    {
        self.shared.dispose(guard);
        proof {
            lemma_inv_shared(old(self)@, self.shared@, 0);
        }
    }

    /// The time up to which a request that was made at a time may take.
    pub fn deadline(&self, start: u128) -> (r: Option<u128>)
        requires
            in_time(start, self@.acquire_timeout),
        ensures
            r == later(start, self@.acquire_timeout),
    {
        match self.acquire_timeout {
            Some(dur) => Some(start + dur),
            None => None,
        }
    }

    /// The number of resources.
    pub fn count(&self) -> (r: usize)
        ensures
            r == self@.shared.count,
    {
        self.shared.count()
    }

    /// How far the pool has come.
    pub fn state(&self) -> (r: PoolState)
        ensures
            r == self@.state,
    {
        self.state
    }

    /// What the users and the manager share.
    pub fn shared(&self) -> (r: &Shared<T, R>)
        ensures
            r@ == self@.shared,
    {
        &self.shared
    }

    fn register(&mut self, reg: Register)
        requires
            old(self).parts_wf(),
        ensures
            final(self).parts_wf(),
            final(self).same_setup(old(self)),
            extends(old(self)@, final(self)@),
            final(self)@ == after_register(old(self)@, reg),
    {
        let _ = self.register_inject.push(reg);
        self.shared.notify();
    }

    /// Have the pool emptied, or note that nobody uses it any more.
    pub fn start_drain(&mut self, shutdown: bool)
        requires
            old(self).wf(),
        ensures
            final(self).wf(),
            final(self).same_setup(old(self)),
            extends(old(self)@, final(self)@),
            final(self)@ == after_start_drain(old(self)@, shutdown),
    {
        self.enter_drain(shutdown);
        proof {
            lemma_inv_shared(old(self)@, self.shared@, 0);
            lemma_inv_waits(with_shared(old(self)@, self.shared@), self@, 0);
        }
    }

    fn enter_drain(&mut self, shutdown: bool)
        requires
            old(self).parts_wf(),
        ensures
            final(self).parts_wf(),
            final(self).same_setup(old(self)),
            extends(old(self)@, final(self)@),
            final(self)@ == after_start_drain(old(self)@, shutdown),
    {
        let next_state: PoolState = if shutdown {
            PoolState::Shutdown
        } else {
            PoolState::Drain
        };
        match self.state {
            PoolState::Active => {
                self.state = next_state;
                self.shared.notify();
            },
            PoolState::Drain => {
                if shutdown {
                    self.state = next_state;
                    self.shared.notify();
                }
            },
            PoolState::Shutdown | PoolState::Stopped => {},
        }
    }

    /// Stop emptying the pool.
    pub fn stop_drain(&mut self)
        requires
            old(self).wf(),
        ensures
            final(self).wf(),
            final(self).same_setup(old(self)),
            extends(old(self)@, final(self)@),
            final(self)@ == after_stop_drain(old(self)@),
    {
        self.leave_drain();
        proof {
            lemma_inv_waits(old(self)@, self@, 0);
        }
    }

    fn leave_drain(&mut self)
        requires
            old(self).parts_wf(),
        ensures
            final(self).parts_wf(),
            final(self).same_setup(old(self)),
            extends(old(self)@, final(self)@),
            final(self)@ == after_stop_drain(old(self)@),
    {
        if let PoolState::Drain = self.state {
            self.state = PoolState::Active;
        }
    }

    /// Hand out a resource that was returned, if there is one and nobody waits.
    ///
    /// A resource that should have been verified is verified first; if there is
    /// no way to do so it is disposed of.
    pub fn try_acquire_idle(&mut self, now: u128) -> (r: Resolve<T>)
        requires
            old(self).wf(),
            in_time(now, old(self)@.shared.idle_timeout),
        ensures
            final(self).wf(),
            final(self).same_setup(old(self)),
            extends(old(self)@, final(self)@),
            r == idle_resource(old(self)@.shared, old(self)@.verify, now),
            resolve_known(final(self)@.shared.cells, r),
            final(self)@ == with_shared(
                old(self)@,
                after_idle(old(self)@.shared, old(self)@.verify, now),
            ),
    {
        if self.shared.is_busy() {
            return ResourceResolve::empty();
        }
        loop
            invariant
                self.wf(),
                self.same_setup(old(self)),
                extends(old(self)@, self@),
                self@ == with_shared(old(self)@, self@.shared),
                self@.shared.waiter_count == old(self)@.shared.waiter_count,
                old(self)@.shared.waiter_count == 0,
                self@.shared.idle_timeout == old(self)@.shared.idle_timeout,
                in_time(now, old(self)@.shared.idle_timeout),
                idle_offer(self@.shared, self@.verify, now) == idle_offer(
                    old(self)@.shared,
                    old(self)@.verify,
                    now,
                ),
            decreases self@.shared.idle.len(),
        {
            let ghost whole = self@;
            let ghost before = whole.shared;
            proof {
                lemma_live_idle(before.idle, before.cells);
            }
            match self.shared.try_acquire_idle() {
                Some(found) => {
                    let mut guard: Guard<T> = found;
                    let late: bool = match guard.info().verify_at {
                        Some(at) => at < now,
                        None => false,
                    };
                    if late {
                        if self.verify {
                            guard.info_mut().acquired(now);
                            proof {
                                lemma_inv_shared(whole, self.shared@, 0);
                            }
                            return ResourceResolve::Future(
                                Operation { work: Work::Verify, guard },
                            );
                        } else {
                            guard.info_mut().expired = true;
                            self.shared.release(guard, now);
                            proof {
                                assert(self.shared@ == after_expire(before, now));
                                lemma_inv_shared(whole, self.shared@, 0);
                            }
                        }
                    } else {
                        // Wrap the resource guard to ensure it is returned to the queue
                        guard.info_mut().acquired(now);
                        proof {
                            lemma_inv_shared(whole, self.shared@, 0);
                        }
                        return ResourceResolve::Resource(Some(guard));
                    }
                },
                None => {
                    proof {
                        lemma_inv_shared(whole, self.shared@, 0);
                    }
                    return ResourceResolve::empty();
                },
            }
        }
    }

    /// Wait for a resource, unless too many do.
    pub fn try_wait(&mut self, started: u128) -> (r: Option<Waiter>)
        requires
            old(self).wf(),
            old(self)@.shared.waiter_count < usize::MAX,
            old(self)@.waits.len() < usize::MAX,
            in_time(started, old(self)@.acquire_timeout),
        ensures
            final(self).wf(),
            final(self).same_setup(old(self)),
            extends(old(self)@, final(self)@),
            r is Some <==> may_wait(old(self)@.shared),
            r is Some ==> r->0.id() == old(self)@.waits.len(),
            final(self)@ == after_try_wait(old(self)@, started),
    {
        if self.shared.try_increment_waiters().is_some() {
            let (send, receive) = self.waits.waiter_pair();
            self.register(Register::Waiter(started, send));
            self.shared.notify();
            proof {
                let p = old(self)@;
                let q = self@;
                lemma_inv_shared(p, q.shared, 0);
                assert(q.registers.drop_last() =~= p.registers);
                assert forall|i: int| 0 <= i < q.registers.len() implies register_known(
                    q,
                    #[trigger] q.registers[i],
                ) by {
                    if i < p.registers.len() {
                        assert(register_known(p, p.registers[i]));
                    }
                }
                assert forall|i: int| 0 <= i < q.mgr.timers.len() implies timer_known(
                    q,
                    (#[trigger] q.mgr.timers[i]).2,
                ) by {
                    assert(timer_known(p, p.mgr.timers[i].2));
                }
            }
            Some(receive)
        } else {
            None
        }
    }

    /// Verify a resource that was unused for too long, or dispose of it.
    pub fn verify_or_dispose(&mut self, guard: Guard<T>)
        requires
            old(self).wf(),
            known(old(self)@.shared.cells, guard@.lock),
        ensures
            final(self).wf(),
            final(self).same_setup(old(self)),
            extends(old(self)@, final(self)@),
            final(self)@ == after_verify_or_dispose(old(self)@, guard@),
    {
        self.check_or_dispose(guard, Ghost(0));
    }

    fn check_or_dispose(&mut self, guard: Guard<T>, left: Ghost<nat>)
        requires
            old(self).parts_wf(),
            pool_inv_amid(old(self)@, left@),
            known(old(self)@.shared.cells, guard@.lock),
        ensures
            final(self).parts_wf(),
            pool_inv_amid(final(self)@, left@),
            final(self).same_setup(old(self)),
            extends(old(self)@, final(self)@),
            final(self)@ == after_verify_or_dispose(old(self)@, guard@),
    {
        if guard.info().reusable && self.verify {
            if self.shared.count() <= self.shared.min_count() {
                self.spawned.push(Operation { work: Work::Verify, guard });
                proof {
                    lemma_inv_waits(old(self)@, self@, left@);
                }
                return;
            }
        }
        self.shared.dispose(guard);
        proof {
            lemma_inv_shared(old(self)@, self.shared@, left@);
        }
    }
}

impl<T, W, R: Fn(T, ResourceInfo) -> (T, bool)> PoolInternal<T, W, R> {
    fn push_woken(&mut self, waker: Option<W>)
        ensures
            final(self)@ == (PoolView {
                woken: also_woken(old(self)@.woken, waker),
                ..old(self)@
            }),
            final(self).same_setup(old(self)),
            extends(old(self)@, final(self)@),
            old(self).parts_wf() ==> final(self).parts_wf(),
    {
        if let Some(waker) = waker {
            self.woken.push(waker);
        }
    }

    fn cancel_wait(&mut self, to: WaitResponder)
        requires
            old(self).parts_wf(),
            awaited(old(self)@.waits, to),
        ensures
            final(self).parts_wf(),
            final(self).same_setup(old(self)),
            extends(old(self)@, final(self)@),
            final(self)@ == after_cancel_wait(old(self)@, to),
    {
        let waker: Option<W> = self.waits.cancel(to);
        self.push_woken(waker);
    }

    fn cancel_drain(&mut self, to: WaitResponder)
        requires
            old(self).parts_wf(),
            awaited(old(self)@.drains, to),
        ensures
            final(self).parts_wf(),
            final(self).same_setup(old(self)),
            extends(old(self)@, final(self)@),
            final(self)@ == after_cancel_drain(old(self)@, to),
    {
        let waker: Option<W> = self.drains.cancel(to);
        self.push_woken(waker);
    }

    fn expire_timer(&mut self, entry: TimerEntry<Timer>, now: u128, left: Ghost<nat>)
        requires
            old(self).parts_wf(),
            pool_inv_amid(
                old(self)@,
                left@ + if entry.2 is Drain {
                    1nat
                } else {
                    0nat
                },
            ),
            timer_known(old(self)@, entry.2),
            in_time(now, old(self)@.shared.idle_timeout),
            old(self)@.shared.cells.len() < usize::MAX,
        ensures
            final(self).parts_wf(),
            pool_inv_amid(final(self)@, left@),
            final(self).same_setup(old(self)),
            extends(old(self)@, final(self)@),
            timer_expires(old(self)@, old(self).hook(), entry, now, final(self)@),
            final(self)@.registers == old(self)@.registers,
            final(self)@.mgr.timers == old(self)@.mgr.timers,
            final(self)@.mgr.timer_id == old(self)@.mgr.timer_id,
            final(self)@.waits.len() == old(self)@.waits.len(),
            final(self)@.drains.len() == old(self)@.drains.len(),
            final(self)@.shared.idle_timeout == old(self)@.shared.idle_timeout,
            old(self)@.shared.cells.len() <= final(self)@.shared.cells.len(),
            final(self)@.shared.cells.len() <= old(self)@.shared.cells.len() + 1,
            final(self)@.shared.events.len() <= old(self)@.shared.events.len() + 1,
    {
        match entry.2 {
            Timer::Drain(to) => {
                // Cancel drain
                self.mgr.drain_count = self.mgr.drain_count - 1;
                if self.mgr.drain_count == 0 {
                    self.leave_drain();
                }
                proof {
                    assert(pool_inv_amid(self@, left@)) by {
                        assert forall|i: int| 0 <= i < self@.registers.len() implies register_known(
                            self@,
                            #[trigger] self@.registers[i],
                        ) by {
                            assert(register_known(old(self)@, old(self)@.registers[i]));
                        }
                        assert forall|i: int| 0 <= i < self@.mgr.timers.len() implies timer_known(
                            self@,
                            (#[trigger] self@.mgr.timers[i]).2,
                        ) by {
                            assert(timer_known(old(self)@, old(self)@.mgr.timers[i].2));
                        }
                    }
                }
                let ghost before = self@;
                self.cancel_drain(to);
                proof {
                    lemma_inv_waits(before, self@, left@);
                }
            },
            Timer::Verify(res) => {
                if let Some(locked) = self.shared.try_lock_some(res) {
                    // Any clone of the resource lock in the idle queue can't be
                    // acquired at the moment, so forget that lock and create a
                    // new one
                    repo::remove(&mut self.mgr.repo, locked.as_lock());
                    let guard: Guard<T> = self.shared.detach(locked);
                    proof {
                        let p = old(self)@;
                        assert(guard@ == detached(p.shared, res));
                        assert(self@ == after_manager_detach(p, res));
                        lemma_repo(p.mgr.repo, p.shared.cells, res);
                        lemma_inv_repo(p, self@.mgr.repo, left@);
                        lemma_inv_shared(
                            with_mgr(p, self@.mgr),
                            self@.shared,
                            left@,
                        );
                    }
                    let ghost moved = self@;

                    if guard.info().verify_at == Some(entry.0) {
                        // Act upon the verify timer
                        self.check_or_dispose(guard, left);
                    } else {
                        // The resource was reacquired and released after the
                        // verify timer was set, put it back into the idle queue.
                        repo::insert(&mut self.mgr.repo, guard.as_lock());
                        let ghost noted = self@;
                        proof {
                            lemma_repo(moved.mgr.repo, moved.shared.cells, guard@.lock);
                            lemma_inv_repo(moved, noted.mgr.repo, left@);
                        }
                        self.shared.release(guard, now);
                        proof {
                            lemma_inv_shared(noted, self@.shared, left@);
                        }
                    }
                } else {
                    // If the resource is locked, then a consumer has acquired it
                    // or is in the process of doing so. If it is gone, there is
                    // nothing to verify. Nothing to do here
                }
            },
            Timer::Waiter(to) => {
                // Try to cancel the waiter. This will only succeed if the
                // waiter hasn't been fulfilled already.
                self.cancel_wait(to);
                proof {
                    lemma_inv_waits(old(self)@, self@, left@);
                }
            },
        }
    }

    /// Deal with the timers that have expired.
    pub fn expire_timers(&mut self, now: u128)
        requires
            old(self).wf(),
            in_time(now, old(self)@.shared.idle_timeout),
            old(self)@.shared.cells.len() + old(self)@.mgr.timers.len() <= usize::MAX,
        ensures
            final(self).wf(),
            final(self).same_setup(old(self)),
            extends(old(self)@, final(self)@),
            expiry(old(self)@, old(self).hook(), now, final(self)@),
            final(self)@.registers == old(self)@.registers,
            final(self)@.mgr.timers == remaining(old(self)@.mgr.timers, now),
            final(self)@.mgr.timer_id == old(self)@.mgr.timer_id,
            final(self)@.waits.len() == old(self)@.waits.len(),
            final(self)@.drains.len() == old(self)@.drains.len(),
            final(self)@.shared.idle_timeout == old(self)@.shared.idle_timeout,
            final(self)@.shared.events.len() <= old(self)@.shared.events.len() + old(
                self,
            )@.mgr.timers.len(),
    {
        let entries: Vec<TimerEntry<Timer>> = self.mgr.timers.split_off(now);
        let ghost start = self@;
        proof {
            let p = old(self)@;
            law_split(p.mgr.timers, now);
            lemma_drain_timers_add(entries@, start.mgr.timers);
            assert(pool_inv_amid(start, drain_timers(entries@))) by {
                assert forall|i: int| 0 <= i < start.registers.len() implies register_known(
                    start,
                    #[trigger] start.registers[i],
                ) by {
                    assert(register_known(p, p.registers[i]));
                }
                let n = entries@.len() as int;
                assert forall|i: int| 0 <= i < start.mgr.timers.len() implies timer_known(
                    start,
                    (#[trigger] start.mgr.timers[i]).2,
                ) && start.mgr.timers[i].1 <= start.mgr.timer_id by {
                    assert(start.mgr.timers[i] == p.mgr.timers[i + n]);
                    assert(timer_known(p, p.mgr.timers[i + n].2));
                }
            }
            assert forall|i: int| 0 <= i < entries@.len() implies timer_known(
                start,
                (#[trigger] entries@[i]).2,
            ) by {
                assert(entries@[i] == p.mgr.timers[i]);
                assert(timer_known(p, p.mgr.timers[i].2));
            }
            assert(entries@.skip(0) =~= entries@);
        }
        let mut i: usize = 0;
        while i < entries.len()
            invariant
                i <= entries@.len(),
                entries@.len() <= old(self)@.mgr.timers.len(),
                old(self)@.shared.cells.len() + old(self)@.mgr.timers.len() <= usize::MAX,
                self.parts_wf(),
                self.same_setup(old(self)),
                extends(old(self)@, self@),
                pool_inv_amid(self@, drain_timers(entries@.skip(i as int))),
                in_time(now, old(self)@.shared.idle_timeout),
                timers_expire(start, old(self).hook(), entries@.take(i as int), now, self@),
                self@.registers == old(self)@.registers,
                self@.mgr.timers == start.mgr.timers,
                self@.mgr.timer_id == old(self)@.mgr.timer_id,
                self@.waits.len() == start.waits.len(),
                self@.drains.len() == start.drains.len(),
                self@.shared.idle_timeout == old(self)@.shared.idle_timeout,
                start.shared.cells.len() <= self@.shared.cells.len(),
                start.shared.cells.len() == old(self)@.shared.cells.len(),
                self@.shared.cells.len() <= old(self)@.shared.cells.len() + i,
                self@.shared.events.len() <= old(self)@.shared.events.len() + i,
                forall|j: int|
                    0 <= j < entries@.len() ==> timer_known(start, (#[trigger] entries@[j]).2),
            decreases entries@.len() - i,
        {
            let ghost mid = self@;
            let ghost rest = entries@.skip(i + 1);
            proof {
                assert(timer_known(start, entries@[i as int].2));
                assert(entries@.skip(i as int) =~= seq![entries@[i as int]] + rest);
                lemma_drain_timers_add(seq![entries@[i as int]], rest);
                assert(seq![entries@[i as int]].drop_last() =~= Seq::<TimerEntry<Timer>>::empty());
                reveal_with_fuel(drain_timers, 2);
            }
            self.expire_timer(entries[i], now, Ghost(drain_timers(rest)));
            proof {
                let done = entries@.take(i + 1);
                assert(done.drop_last() =~= entries@.take(i as int));
                assert(timers_expire(start, old(self).hook(), done.drop_last(), now, mid));
                assert(timer_expires(mid, old(self).hook(), done.last(), now, self@));
                assert(timers_expire(start, old(self).hook(), done, now, self@));
            }
            i = i + 1;
        }
        proof {
            assert(entries@.take(i as int) =~= entries@);
            assert(entries@.skip(i as int) =~= Seq::<TimerEntry<Timer>>::empty());
        }
    }
}

impl<T, W, R: Fn(T, ResourceInfo) -> (T, bool)> PoolInternal<T, W, R> {
    fn set_timer(&mut self, at: u128, timer: Timer)
        requires
            old(self).parts_wf(),
            ordered(old(self)@.mgr.timers),
            numbered_up_to(old(self)@.mgr.timers, old(self)@.mgr.timer_id as int),
            old(self)@.mgr.timer_id < usize::MAX,
        ensures
            final(self).parts_wf(),
            final(self).same_setup(old(self)),
            extends(old(self)@, final(self)@),
            final(self)@ == with_mgr(old(self)@, after_set_timer(old(self)@.mgr, at, timer)),
            ordered(final(self)@.mgr.timers),
            numbered_up_to(final(self)@.mgr.timers, final(self)@.mgr.timer_id as int),
            final(self)@.mgr.timers.len() == old(self)@.mgr.timers.len() + 1,
            final(self)@.mgr.timers.len() <= usize::MAX,
    {
        self.mgr.timer_id = self.mgr.timer_id + 1;
        self.mgr.timers.insert(at, self.mgr.timer_id, timer);
    }

    /// Take in the news.
    pub fn take_events(&mut self)
        requires
            old(self).wf(),
            old(self)@.mgr.timer_id + old(self)@.shared.events.len() <= usize::MAX,
        ensures
            final(self).wf(),
            final(self).same_setup(old(self)),
            extends(old(self)@, final(self)@),
            final(self)@ == after_news(old(self)@),
            final(self)@.mgr.timer_id <= old(self)@.mgr.timer_id + old(self)@.shared.events.len(),
    {
        let ghost all = self@.shared.events;
        let ghost mut done: int = 0;
        assert(all.take(0) =~= Seq::<SharedEvent>::empty());
        assert(all.skip(0) =~= all);
        loop
            invariant
                all == old(self)@.shared.events,
                0 <= done <= all.len(),
                old(self)@.mgr.timer_id + all.len() <= usize::MAX,
                self.parts_wf(),
                pool_inv(self@),
                self.same_setup(old(self)),
                extends(old(self)@, self@),
                self@ == (PoolView {
                    shared: SharedView { events: all.skip(done), ..old(self)@.shared },
                    mgr: after_events(old(self)@.mgr, all.take(done)),
                    ..old(self)@
                }),
                self@.mgr.timer_id <= old(self)@.mgr.timer_id + done,
            decreases all.len() - done,
        {
            let ghost before = self@;
            match self.shared.pop_event() {
                Some(event) => {
                    let ghost popped = self@;
                    proof {
                        assert(event == all[done]);
                        assert(before.shared.events[0] == event);
                        assert(popped.shared.events =~= all.skip(done + 1));
                        assert(all.take(done + 1).drop_last() =~= all.take(done));
                        lemma_inv_shared(before, popped.shared, 0);
                        assert(pool_inv(popped));
                    }
                    match event {
                        SharedEvent::Created(res) => {
                            repo::insert(&mut self.mgr.repo, res);
                            proof {
                                lemma_repo(popped.mgr.repo, popped.shared.cells, res);
                                lemma_inv_repo(popped, self@.mgr.repo, 0);
                            }
                        },
                        SharedEvent::Verify(expire, res) => {
                            self.set_timer(expire, Timer::Verify(res));
                            proof {
                                lemma_inv_timer(popped, expire, Timer::Verify(res), 0);
                            }
                        },
                    }
                    proof {
                        done = done + 1;
                    }
                },
                None => {
                    proof {
                        assert(all.skip(done) =~= Seq::<SharedEvent>::empty());
                        assert(all.take(done) =~= all);
                    }
                    return;
                },
            }
        }
    }

    /// Take in the requests.
    pub fn take_requests(&mut self)
        requires
            old(self).wf(),
            old(self)@.mgr.timer_id + old(self)@.registers.len() <= usize::MAX,
        ensures
            final(self).wf(),
            final(self).same_setup(old(self)),
            extends(old(self)@, final(self)@),
            final(self)@ == after_inbox(old(self)@),
            final(self)@.shared == (SharedView {
                notified: final(self)@.shared.notified,
                ..old(self)@.shared
            }),
            final(self)@.mgr.repo == old(self)@.mgr.repo,
    {
        let ghost all = self@.registers;
        let ghost start = PoolView { registers: Seq::empty(), ..self@ };
        let ghost mut done: int = 0;
        assert(all.take(0) =~= Seq::<Register>::empty());
        assert(all.skip(0) =~= all);
        loop
            invariant
                all == old(self)@.registers,
                start == (PoolView { registers: Seq::<Register>::empty(), ..old(self)@ }),
                0 <= done <= all.len(),
                old(self)@.mgr.timer_id + all.len() <= usize::MAX,
                self.parts_wf(),
                pool_inv(self@),
                self.same_setup(old(self)),
                extends(old(self)@, self@),
                self@.registers == all.skip(done),
                (PoolView { registers: Seq::<Register>::empty(), ..self@ }) == after_requests(
                    start,
                    all.take(done),
                ),
                self@.shared == (SharedView {
                    notified: self@.shared.notified,
                    ..old(self)@.shared
                }),
                self@.mgr.repo == old(self)@.mgr.repo,
                self@.mgr.timer_id <= old(self)@.mgr.timer_id + done,
            decreases all.len() - done,
        {
            let ghost before = self@;
            match self.register_inject.pop() {
                Ok(register) => {
                    let ghost popped = self@;
                    proof {
                        assert(register == all[done]);
                        assert(before.registers[0] == register);
                        assert(popped.registers =~= all.skip(done + 1));
                        assert(all.take(done + 1).drop_last() =~= all.take(done));
                        assert(register_known(before, before.registers[0]));
                        lemma_waiting_first(before.registers);
                        self.lemma_popped(before, popped);
                    }
                    match register {
                        Register::Drain(expire, notify) => {
                            self.enter_drain(false);
                            let ghost draining = self@;
                            proof {
                                lemma_inv_shared(popped, draining.shared, 0);
                                lemma_inv_waits(with_shared(popped, draining.shared), draining, 0);
                                lemma_drain_timers_bound(draining.mgr.timers);
                            }
                            self.set_timer(expire, Timer::Drain(notify));
                            self.mgr.drain_count = self.mgr.drain_count + 1;
                            proof {
                                lemma_inv_timer(draining, expire, Timer::Drain(notify), 0);
                            }
                        },
                        Register::Waiter(start_at, waiter) => {
                            if self.waits.is_canceled(waiter) {
                            } else {
                                if let Some(dur) = self.acquire_timeout {
                                    let expire: u128 = start_at + dur;
                                    self.set_timer(expire, Timer::Waiter(waiter));
                                    proof {
                                        lemma_inv_timer(popped, expire, Timer::Waiter(waiter), 0);
                                    }
                                }
                                let ghost timed = self@;
                                self.mgr.waiters.push_back(waiter);
                                proof {
                                    assert forall|i: int|
                                        0 <= i < self@.registers.len() implies register_known(
                                        self@,
                                        #[trigger] self@.registers[i],
                                    ) by {
                                        assert(register_known(timed, timed.registers[i]));
                                    }
                                    assert forall|i: int|
                                        0 <= i < self@.mgr.timers.len() implies timer_known(
                                        self@,
                                        (#[trigger] self@.mgr.timers[i]).2,
                                    ) by {
                                        assert(timer_known(timed, timed.mgr.timers[i].2));
                                    }
                                }
                            }
                        },
                    }
                    proof {
                        done = done + 1;
                    }
                },
                Err(_) => {
                    proof {
                        assert(all.skip(done) =~= Seq::<Register>::empty());
                        assert(all.take(done) =~= all);
                    }
                    return;
                },
            }
        }
    }

    proof fn lemma_popped(&self, before: PoolView<T, W>, popped: PoolView<T, W>)
        requires
            pool_inv(before),
            before.registers.len() > 0,
            popped == (PoolView { registers: before.registers.drop_first(), ..before }),
        ensures
            pool_inv(popped),
            popped.shared.waiter_count >= popped.mgr.waiters.len() + waiting_registers(
                popped.registers,
            ) + (if before.registers[0] is Waiter {
                1nat
            } else {
                0nat
            }),
    {
        lemma_waiting_first(before.registers);
        assert forall|i: int| 0 <= i < popped.registers.len() implies register_known(
            popped,
            #[trigger] popped.registers[i],
        ) by {
            assert(register_known(before, before.registers[i + 1]));
        }
        assert forall|i: int| 0 <= i < popped.mgr.timers.len() implies timer_known(
            popped,
            (#[trigger] popped.mgr.timers[i]).2,
        ) by {
            assert(timer_known(before, before.mgr.timers[i].2));
        }
    }
}

impl<T, W, R: Fn(T, ResourceInfo) -> (T, bool)> PoolInternal<T, W, R> {
    fn pop_waiter(&mut self)
        requires
            old(self).parts_wf(),
            pool_inv(old(self)@),
            old(self)@.mgr.waiters.len() > 0,
        ensures
            final(self).parts_wf(),
            pool_inv(final(self)@),
            final(self).same_setup(old(self)),
            extends(old(self)@, final(self)@),
            final(self)@ == after_waiter(old(self)@),
    {
        let _ = self.mgr.waiters.pop_front();
        let _ = self.shared.decrement_waiters();
        proof {
            let p = old(self)@;
            let q = self@;
            assert(q.mgr.waiters =~= p.mgr.waiters.drop_first());
            assert forall|i: int| 0 <= i < q.registers.len() implies register_known(
                q,
                #[trigger] q.registers[i],
            ) by {
                assert(register_known(p, p.registers[i]));
            }
            assert forall|i: int| 0 <= i < q.mgr.timers.len() implies timer_known(
                q,
                (#[trigger] q.mgr.timers[i]).2,
            ) by {
                assert(timer_known(p, p.mgr.timers[i].2));
            }
            assert forall|i: int| 0 <= i < q.mgr.waiters.len() implies awaited(
                q.waits,
                #[trigger] q.mgr.waiters[i],
            ) by {
                assert(awaited(p.waits, p.mgr.waiters[i + 1]));
            }
        }
    }

    fn serve(&mut self, waiter: WaitResponder, guard: Guard<T>) -> (r: Option<Guard<T>>)
        requires
            old(self).parts_wf(),
            pool_inv(old(self)@),
            awaited(old(self)@.waits, waiter),
            known(old(self)@.shared.cells, guard@.lock),
        ensures
            final(self).parts_wf(),
            pool_inv(final(self)@),
            final(self).same_setup(old(self)),
            extends(old(self)@, final(self)@),
            final(self)@ == after_serve(old(self)@, waiter, guard@),
            arrives(old(self)@.waits[waiter.id()]) ==> r is None,
            !arrives(old(self)@.waits[waiter.id()]) ==> r == Some(guard),
    {
        let (sent, waker): (Result<(), Resolve<T>>, Option<W>) = self.waits.send(
            waiter,
            ResourceResolve::Resource(Some(guard)),
        );
        self.push_woken(waker);
        proof {
            lemma_inv_waits(old(self)@, self@, 0);
        }
        match sent {
            Ok(()) => None,
            Err(back) => {
                let mut failed: Resolve<T> = back;
                failed.take_resource()
            },
        }
    }

    /// Serve those who wait, as long as there are resources.
    pub fn serve_waiters(&mut self, now: u128)
        requires
            old(self).wf(),
            in_time(now, old(self)@.shared.idle_timeout),
        ensures
            final(self).wf(),
            final(self).same_setup(old(self)),
            extends(old(self)@, final(self)@),
            waiters_served(old(self)@, old(self).hook(), now, final(self)@),
    {
        if self.mgr.waiters.len() == 0 || !(self.shared.have_idle()
            || self.create_from_count().is_some()) {
            return;
        }
        let mut res: Option<Guard<T>> = None;
        let mut more: bool = true;
        while more
            invariant
                self.parts_wf(),
                pool_inv(self@),
                self.same_setup(old(self)),
                extends(old(self)@, self@),
                self@.shared.idle_timeout == old(self)@.shared.idle_timeout,
                res is Some ==> known(self@.shared.cells, res->0@.lock),
                !more ==> served(old(self)@, None) == (self@, spare(res)),
                more ==> served(old(self)@, None) == served(self@, spare(res)),
            decreases self@.mgr.waiters.len() + if more {
                1int
            } else {
                0int
            },
        {
            let ghost before = self@;
            if self.mgr.waiters.len() == 0 {
                more = false;
            } else {
                let waiter: WaitResponder = self.mgr.waiters[0];
                assert(waiter == before.mgr.waiters[0]);
                if self.waits.is_canceled(waiter) {
                    self.pop_waiter();
                } else {
                    // Bypasses busy check because we are satisfying waiters
                    match res.take() {
                        Some(idle) => {
                            res = self.serve(waiter, idle);
                            self.pop_waiter();
                        },
                        None => {
                            proof {
                                lemma_live_idle(before.shared.idle, before.shared.cells);
                            }
                            let found: Option<Guard<T>> = self.shared.try_acquire_idle();
                            proof {
                                lemma_inv_shared(before, self@.shared, 0);
                            }
                            match found {
                                Some(idle) => {
                                    res = self.serve(waiter, idle);
                                    self.pop_waiter();
                                },
                                None => {
                                    // No resources available
                                    more = false;
                                },
                            }
                        },
                    }
                }
            }
        }
        // No active waiters were found, return the resource to the queue
        if let Some(res) = res {
            self.release(res, now);
        }
    }
}

impl<T, W, R: Fn(T, ResourceInfo) -> (T, bool)> PoolInternal<T, W, R> {
    fn retain(&mut self)
        requires
            old(self).wf(),
        ensures
            final(self).wf(),
            final(self).same_setup(old(self)),
            extends(old(self)@, final(self)@),
            final(self)@ == after_retain(old(self)@),
    {
        self.shared.retain_occupied(&mut self.mgr.repo);
        proof {
            let p = old(self)@;
            lemma_repo(p.mgr.repo, p.shared.cells, ResourceLock::at(0));
            lemma_inv_repo(p, self@.mgr.repo, 0);
        }
    }

    /// Look at how far the pool has come.
    ///
    /// While the pool is being emptied, everything that is not in use is disposed
    /// of. Returns whether the pool is empty then, and only the one who had it
    /// emptied has a handle.
    pub fn check(&mut self) -> (r: bool)
        requires
            old(self).wf(),
        ensures
            final(self).wf(),
            final(self).same_setup(old(self)),
            extends(old(self)@, final(self)@),
            final(self)@ == after_check(old(self)@),
            r == is_drained(final(self)@),
    {
        if let PoolState::Drain = self.state {
            let mut i: usize = 0;
            assert(self@.mgr.repo.take(0) =~= Seq::<ResourceLock>::empty());
            while i < self.mgr.repo.len()
                invariant
                    self.wf(),
                    self.same_setup(old(self)),
                    extends(old(self)@, self@),
                    i <= self@.mgr.repo.len(),
                    self@.mgr.repo == old(self)@.mgr.repo,
                    self.mgr.repo@ == self@.mgr.repo,
                    self@ == with_shared(
                        old(self)@,
                        after_evictions(old(self)@.shared, self@.mgr.repo.take(i as int)),
                    ),
                decreases self@.mgr.repo.len() - i,
            {
                let ghost before = self@;
                let res: ResourceLock = self.mgr.repo[i];
                proof {
                    assert(res == before.mgr.repo[i as int]);
                    let done = before.mgr.repo.take(i + 1);
                    assert(done.drop_last() =~= before.mgr.repo.take(i as int));
                    assert(done.last() == res);
                }
                if let Some(guard) = self.shared.try_lock_some(res) {
                    self.shared.dispose(guard);
                }
                proof {
                    assert(self@.shared == after_evict(before.shared, res));
                    lemma_inv_shared(before, self@.shared, 0);
                }
                i = i + 1;
            }
            assert(self@.mgr.repo.take(i as int) =~= self@.mgr.repo);
            self.retain();
            self.mgr.repo.len() == 0 && self.handles <= 1
        } else {
            let dispose_count: usize = self.shared.dispose_count();
            if self.mgr.last_dispose_count != dispose_count {
                self.retain();
                let ghost before = self@;
                self.mgr.last_dispose_count = dispose_count;
                proof {
                    assert forall|i: int| 0 <= i < self@.registers.len() implies register_known(
                        self@,
                        #[trigger] self@.registers[i],
                    ) by {
                        assert(register_known(before, before.registers[i]));
                    }
                    assert forall|i: int| 0 <= i < self@.mgr.timers.len() implies timer_known(
                        self@,
                        (#[trigger] self@.mgr.timers[i]).2,
                    ) by {
                        assert(timer_known(before, before.mgr.timers[i].2));
                    }
                }
            }
            false
        }
    }

    /// Stop the manager.
    ///
    /// Those who had the pool emptied learn that it is; everyone else who waits
    /// learns that there is nothing to wait for.
    pub fn stop(&mut self)
        requires
            old(self).wf(),
        ensures
            final(self).wf(),
            final(self).same_setup(old(self)),
            extends(old(self)@, final(self)@),
            final(self)@ == after_stop(old(self)@),
    {
        let entries: Vec<TimerEntry<Timer>> = self.mgr.timers.take_all();
        let waiters: VecDeque<WaitResponder> = exchange(&mut self.mgr.waiters, VecDeque::new());
        self.mgr.drain_count = 0;
        let ghost cleared = self@.mgr;
        let ghost p = old(self)@;
        proof {
            assert forall|i: int| 0 <= i < self@.registers.len() implies register_known(
                self@,
                #[trigger] self@.registers[i],
            ) by {
                assert(register_known(p, p.registers[i]));
            }
            assert(entries@.take(0) =~= Seq::<TimerEntry<Timer>>::empty());
            assert(cleared == (ManagerView {
                timers: Seq::<TimerEntry<Timer>>::empty(),
                waiters: Seq::<WaitResponder>::empty(),
                drain_count: 0,
                ..p.mgr
            }));
        }
        let mut i: usize = 0;
        while i < entries.len()
            invariant
                i <= entries@.len(),
                p == old(self)@,
                entries@ == p.mgr.timers,
                pool_inv(p),
                self.wf(),
                self.same_setup(old(self)),
                extends(old(self)@, self@),
                after_last_timers(p, entries@.take(i as int)).mgr == p.mgr,
                self@ == with_mgr(after_last_timers(p, entries@.take(i as int)), cleared),
                self@.waits.len() == p.waits.len(),
                self@.drains.len() == p.drains.len(),
            decreases entries@.len() - i,
        {
            let ghost before = self@;
            proof {
                assert(timer_known(p, p.mgr.timers[i as int].2));
                let done = entries@.take(i + 1);
                assert(done.drop_last() =~= entries@.take(i as int));
                assert(done.last() == entries@[i as int]);
            }
            match entries[i].2 {
                Timer::Drain(waiter) => {
                    // Send true to indicate that the shutdown succeeded.
                    // Not bothered if the send fails.
                    let (_, waker): (Result<(), bool>, Option<W>) = self.drains.send(waiter, true);
                    self.push_woken(waker);
                },
                // Drop any other waiters, leading them to be cancelled
                Timer::Waiter(waiter) => self.cancel_wait(waiter),
                Timer::Verify(_) => {},
            }
            proof {
                lemma_inv_waits(before, self@, 0);
            }
            i = i + 1;
        }
        let ghost told = after_last_timers(p, entries@);
        proof {
            assert(entries@.take(i as int) =~= entries@);
            assert(waiters@.take(0) =~= Seq::<WaitResponder>::empty());
        }
        let mut j: usize = 0;
        while j < waiters.len()
            invariant
                j <= waiters@.len(),
                p == old(self)@,
                waiters@ == p.mgr.waiters,
                pool_inv(p),
                self.wf(),
                self.same_setup(old(self)),
                extends(old(self)@, self@),
                after_dismiss(told, waiters@.take(j as int)).mgr == p.mgr,
                self@ == with_mgr(after_dismiss(told, waiters@.take(j as int)), cleared),
                self@.waits.len() == p.waits.len(),
            decreases waiters@.len() - j,
        {
            let ghost before = self@;
            proof {
                assert(awaited(p.waits, p.mgr.waiters[j as int]));
                let done = waiters@.take(j + 1);
                assert(done.drop_last() =~= waiters@.take(j as int));
                assert(done.last() == waiters@[j as int]);
            }
            self.cancel_wait(waiters[j]);
            proof {
                lemma_inv_waits(before, self@, 0);
            }
            j = j + 1;
        }
        proof {
            assert(waiters@.take(j as int) =~= waiters@);
        }
        let ghost before = self@;
        self.state = PoolState::Stopped;
        proof {
            lemma_inv_waits(before, self@, 0);
        }
    }

    /// One round of the manager.
    ///
    /// The manager does it whenever it is notified, and when the time has come up
    /// to which it was to wait.
    pub fn manage(&mut self, now: u128) -> (r: Rest)
        requires
            old(self).wf(),
            in_time(now, old(self)@.shared.idle_timeout),
            old(self)@.shared.cells.len() + old(self)@.mgr.timers.len() <= usize::MAX,
            old(self)@.mgr.timer_id + old(self)@.shared.events.len() + old(self)@.mgr.timers.len()
                + old(self)@.registers.len() <= usize::MAX,
        ensures
            final(self).wf(),
            final(self).same_setup(old(self)),
            extends(old(self)@, final(self)@),
            round(old(self)@, old(self).hook(), now, final(self)@, r),
    {
        self.expire_timers(now);
        let ghost on_time = self@;
        self.take_events();
        self.take_requests();
        self.serve_waiters(now);
        let ghost served = self@;
        if self.check() {
            self.stop();
            assert(round(old(self)@, old(self).hook(), now, self@, Rest::Stop));
            Rest::Stop
        } else {
            let rest = Rest::Wait(self.mgr.timers.first());
            assert(round(old(self)@, old(self).hook(), now, self@, rest));
            rest
        }
    }
}

impl<T, W, R: Fn(T, ResourceInfo) -> (T, bool)> PoolInternal<T, W, R> {
    /// Take the resources that were disposed of.
    pub fn take_disposed(&mut self) -> (r: Vec<(T, ResourceInfo)>)
        requires
            old(self).wf(),
        ensures
            final(self).wf(),
            final(self).same_setup(old(self)),
            extends(old(self)@, final(self)@),
            r@ == old(self)@.shared.disposed,
            final(self)@ == with_shared(
                old(self)@,
                SharedView {
                    disposed: Seq::<(T, ResourceInfo)>::empty(),
                    ..old(self)@.shared
                },
            ),
    {
        let disposed: Vec<(T, ResourceInfo)> = self.shared.take_disposed();
        proof {
            lemma_inv_shared(old(self)@, self@.shared, 0);
        }
        disposed
    }

    /// Check whether the manager is to be woken, which is then up to the caller.
    pub fn take_notified(&mut self) -> (r: bool)
        requires
            old(self).wf(),
        ensures
            final(self).wf(),
            final(self).same_setup(old(self)),
            extends(old(self)@, final(self)@),
            r == old(self)@.shared.notified,
            final(self)@ == with_shared(
                old(self)@,
                SharedView { notified: false, ..old(self)@.shared },
            ),
    {
        let notified: bool = self.shared.take_notified();
        proof {
            lemma_inv_shared(old(self)@, self@.shared, 0);
        }
        notified
    }

    /// Take the work that is to be done in the background.
    pub fn take_spawned(&mut self) -> (r: Vec<Operation<ResourceInfo, T>>)
        requires
            old(self).wf(),
        ensures
            final(self).wf(),
            final(self).same_setup(old(self)),
            extends(old(self)@, final(self)@),
            r@ == old(self)@.spawned,
            final(self)@ == (PoolView {
                spawned: Seq::<Operation<ResourceInfo, T>>::empty(),
                ..old(self)@
            }),
    {
        let spawned: Vec<Operation<ResourceInfo, T>> = exchange(&mut self.spawned, Vec::new());
        proof {
            lemma_inv_waits(old(self)@, self@, 0);
        }
        spawned
    }

    /// Take the wakers that are due.
    pub fn take_woken(&mut self) -> (r: Vec<W>)
        requires
            old(self).wf(),
        ensures
            final(self).wf(),
            final(self).same_setup(old(self)),
            extends(old(self)@, final(self)@),
            r@ == old(self)@.woken,
            final(self)@ == (PoolView { woken: Seq::<W>::empty(), ..old(self)@ }),
    {
        let woken: Vec<W> = exchange(&mut self.woken, Vec::new());
        proof {
            lemma_inv_waits(old(self)@, self@, 0);
        }
        woken
    }

    /// Ask for the pool to be emptied up to a time.
    pub fn drain(&mut self, expire: u128) -> (r: Waiter)
        requires
            old(self).wf(),
            old(self)@.drains.len() < usize::MAX,
        ensures
            final(self).wf(),
            final(self).same_setup(old(self)),
            extends(old(self)@, final(self)@),
            r.id() == old(self)@.drains.len(),
            final(self)@ == after_ask_drain(old(self)@, expire),
    {
        let (send, receive) = self.drains.waiter_pair();
        self.register(Register::Drain(expire, send));
        proof {
            let p = old(self)@;
            let q = self@;
            lemma_inv_shared(p, q.shared, 0);
            assert(q.registers.drop_last() =~= p.registers);
            assert forall|i: int| 0 <= i < q.registers.len() implies register_known(
                q,
                #[trigger] q.registers[i],
            ) by {
                if i < p.registers.len() {
                    assert(register_known(p, p.registers[i]));
                }
            }
            assert forall|i: int| 0 <= i < q.mgr.timers.len() implies timer_known(
                q,
                (#[trigger] q.mgr.timers[i]).2,
            ) by {
                assert(timer_known(p, p.mgr.timers[i].2));
            }
        }
        receive
    }

    /// Look for the reply to a request to empty the pool, leaving a waker if it has
    /// yet to come.
    pub fn poll_drain(&mut self, waiter: &Waiter, waker: W) -> (r: Poll<Result<bool, Canceled>>)
        requires
            old(self).wf(),
            0 <= waiter.id() < old(self)@.drains.len(),
            attended(old(self)@.drains[waiter.id()]),
        ensures
            final(self).wf(),
            final(self).same_setup(old(self)),
            extends(old(self)@, final(self)@),
            match attempt(old(self)@.drains[waiter.id()].shot, true) {
                Attempt::Ready(res) => r == Poll::Ready(res),
                _ => r is Pending,
            },
            final(self)@ == (PoolView {
                drains: old(self)@.drains.update(
                    waiter.id(),
                    after_poll_wait(old(self)@.drains[waiter.id()], waker),
                ),
                ..old(self)@
            }),
    {
        let found: Poll<Result<bool, Canceled>> = self.drains.poll(waiter, waker);
        proof {
            lemma_inv_waits(old(self)@, self@, 0);
        }
        found
    }

    /// Stop waiting for the pool to be emptied.
    pub fn drop_drain(&mut self, waiter: Waiter)
        requires
            old(self).wf(),
            0 <= waiter.id() < old(self)@.drains.len(),
            attended(old(self)@.drains[waiter.id()]),
        ensures
            final(self).wf(),
            final(self).same_setup(old(self)),
            final(self)@ == (PoolView {
                drains: old(self)@.drains.update(
                    waiter.id(),
                    after_leave(old(self)@.drains[waiter.id()]),
                ),
                ..old(self)@
            }),
    {
        let _ = self.drains.drop_waiter(waiter);
        proof {
            lemma_inv_waits(old(self)@, self@, 0);
        }
    }

    /// Look for the reply to a request for a resource, leaving a waker if it has
    /// yet to come.
    pub fn poll_wait(&mut self, waiter: &Waiter, waker: W) -> (r: Poll<Result<Resolve<T>, Canceled>>)
        requires
            old(self).wf(),
            0 <= waiter.id() < old(self)@.waits.len(),
            attended(old(self)@.waits[waiter.id()]),
        ensures
            final(self).wf(),
            final(self).same_setup(old(self)),
            extends(old(self)@, final(self)@),
            match attempt(old(self)@.waits[waiter.id()].shot, true) {
                Attempt::Ready(res) => r == Poll::Ready(res) && (res is Ok ==> resolve_known(
                    final(self)@.shared.cells,
                    res->Ok_0,
                )),
                _ => r is Pending,
            },
            final(self)@ == after_look(old(self)@, waiter.id(), waker),
    {
        assert(reply_known(self@.shared.cells, self@.waits[waiter.id()]));
        let found: Poll<Result<Resolve<T>, Canceled>> = self.waits.poll(waiter, waker);
        proof {
            lemma_inv_waits(old(self)@, self@, 0);
        }
        found
    }

    /// Check whether the reply to a request for a resource is there.
    pub fn is_decided(&self, waiter: &Waiter) -> (r: bool)
        requires
            self.wf(),
            0 <= waiter.id() < self@.waits.len(),
        ensures
            r == !self@.waits[waiter.id()].open,
            attended(self@.waits[waiter.id()]) ==> r == (attempt(
                self@.waits[waiter.id()].shot,
                true,
            ) is Ready),
    {
        broadcast use Waits::lemma_wf;

        self.waits.is_decided(waiter)
    }

    /// Take the reply to a request for a resource.
    pub fn receive(&mut self, waiter: &Waiter) -> (r: Result<Resolve<T>, Canceled>)
        requires
            old(self).wf(),
            0 <= waiter.id() < old(self)@.waits.len(),
            !old(self)@.waits[waiter.id()].open,
        ensures
            final(self).wf(),
            final(self).same_setup(old(self)),
            extends(old(self)@, final(self)@),
            Attempt::Ready(r) == attempt(old(self)@.waits[waiter.id()].shot, true),
            r is Ok ==> resolve_known(final(self)@.shared.cells, r->Ok_0),
            forall|waker: W|
                final(self)@ == #[trigger] after_look(old(self)@, waiter.id(), waker),
    {
        assert(reply_known(self@.shared.cells, self@.waits[waiter.id()]));
        let ghost replied = self@.waits[waiter.id()];
        let reply: Result<Resolve<T>, Canceled> = self.waits.receive(waiter);
        proof {
            assert forall|waker: W| self@ == #[trigger] after_look(old(self)@, waiter.id(), waker) by {
                let after = after_poll_wait(replied, waker);
            }
            self.lemma_received(old(self)@, waiter.id());
        }
        reply
    }

    proof fn lemma_received(&self, p: PoolView<T, W>, id: int)
        requires
            pool_inv(p),
            0 <= id < p.waits.len(),
            !p.waits[id].open,
            self.parts_wf(),
            forall|waker: W| self@ == #[trigger] after_look(p, id, waker),
        ensures
            pool_inv(self@),
            extends(p, self@),
    {
        let waker: W = arbitrary();
        assert(self@ == after_look(p, id, waker));
        lemma_inv_waits(p, self@, 0);
    }

    /// Stop waiting for a resource. Returns it if it is there.
    pub fn drop_wait(&mut self, waiter: Waiter) -> (r: Option<Resolve<T>>)
        requires
            old(self).wf(),
            0 <= waiter.id() < old(self)@.waits.len(),
            attended(old(self)@.waits[waiter.id()]),
        ensures
            final(self).wf(),
            final(self).same_setup(old(self)),
            r == taken_by_cancel(old(self)@.waits[waiter.id()].shot),
            r is Some ==> resolve_known(final(self)@.shared.cells, r->0),
            final(self)@ == (PoolView {
                waits: old(self)@.waits.update(
                    waiter.id(),
                    after_leave(old(self)@.waits[waiter.id()]),
                ),
                ..old(self)@
            }),
    {
        assert(reply_known(self@.shared.cells, self@.waits[waiter.id()]));
        let reply: Option<Resolve<T>> = self.waits.drop_waiter(waiter);
        proof {
            lemma_inv_waits(old(self)@, self@, 0);
        }
        reply
    }

    /// Count one more handle to the pool.
    pub fn add_handle(&mut self)
        requires
            old(self).wf(),
            old(self)@.handles < usize::MAX,
        ensures
            final(self).wf(),
            final(self).same_setup(old(self)),
            extends(old(self)@, final(self)@),
            final(self)@ == (PoolView {
                handles: (old(self)@.handles + 1) as usize,
                ..old(self)@
            }),
    {
        self.handles = self.handles + 1;
        proof {
            lemma_inv_waits(old(self)@, self@, 0);
        }
    }

    /// Count one handle less. When the last one is gone, the pool is no longer in
    /// use. While the pool is being emptied, the manager is told.
    pub fn drop_handle(&mut self)
        requires
            old(self).wf(),
            old(self)@.handles > 0,
        ensures
            final(self).wf(),
            final(self).same_setup(old(self)),
            extends(old(self)@, final(self)@),
            final(self)@ == after_drop_handle(old(self)@),
    {
        self.handles = self.handles - 1;
        proof {
            lemma_inv_waits(old(self)@, self@, 0);
        }
        if self.handles == 0 {
            self.start_drain(true);
        } else if let PoolState::Drain = self.state {
            let ghost before = self@;
            self.shared.notify();
            proof {
                lemma_inv_shared(before, self@.shared, 0);
            }
        }
    }
}

spec fn spare<T>(res: Option<Guard<T>>) -> Option<Access<T>> {
    match res {
        Some(guard) => Some(guard@),
        None => None,
    }
}

} // verus!
