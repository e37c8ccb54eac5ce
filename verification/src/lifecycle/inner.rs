//! The workings of a pool whose resources have handlers.
//!
//! Users of a pool and its manager act on one [`PoolInner`]. What is left to
//! the caller piles up in it: work to be done in the background, wakers that are
//! due, and the request to wake the manager.

use std::collections::VecDeque;

use vstd::prelude::*;

use crate::arp::model::{next_check, PoolState, Register, Timer};
use crate::dropshot::{attempt, taken_by_cancel, Attempt, Canceled};
use crate::exchange::exchange;
use crate::lifecycle::info::ResourceInfo;
use crate::lifecycle::lifecycle::Lifecycle;
use crate::lifecycle::model::{
    after_ask_shutdown, after_cancel_wait, after_check, after_dismiss, after_dispose,
    after_drop_handle, after_events, after_evict, after_evictions, after_expiry, after_idle,
    after_inbox, after_last_timers, after_look, after_manager_detach, after_news, after_requests,
    after_retain, after_round, after_set_timer, after_shutdown, after_spawn, after_stop,
    after_timer, after_timers, after_try_create, after_try_wait, after_verify, after_waiter,
    after_waiters, after_work, can_create, created_guard, detached, extends, fresh_pool,
    idle_resource, is_emptied, lemma_inv_mgr, lemma_inv_queue, lemma_inv_register, lemma_inv_repo,
    lemma_inv_timer, lemma_inv_waits, pool_inv, register_known, rest_after, served, timer_known,
    try_created, with_mgr, with_queue, Guard, ManagerView, PoolView, Resolve,
};
use crate::lifecycle::queue::{after_release, fresh_queue, Queue, QueueEvent, QueueView};
use crate::poll::Poll;
use crate::pool::model::{also_woken, lemma_live_idle, reply_known, resolve_known, Rest};
use crate::queue;
use crate::resource::lock::{after_unlock, known, ResourceGuard, ResourceLock};
use crate::resource::operation::{Operation, ResourceResolve};
use crate::resource::repo::{self, lemma_repo};
use crate::shared::in_time;
use crate::timers::{law_split, remaining, TimerEntry, Timers};
use crate::wait::{after_leave, after_poll_wait, attended, awaited, WaitResponder, Waiter, Waits};

verus! {

broadcast use {
    ResourceLock::lemma_at,
    ResourceLock::lemma_same,
    WaitResponder::lemma_at,
    WaitResponder::lemma_same,
    ResourceGuard::lemma_of,
    ResourceGuard::lemma_view,
    Queue::lemma_wf,
};

struct Manager {
    repo: Vec<ResourceLock>,
    timer_id: usize,
    timers: Timers<Timer>,
    waiters: VecDeque<WaitResponder>,
}

impl Manager {
    spec fn view(&self) -> ManagerView {
        ManagerView {
            repo: self.repo@,
            timer_id: self.timer_id,
            timers: self.timers@,
            waiters: self.waiters@,
        }
    }
}

/// A pool.
pub struct PoolInner<T, W> {
    queue: Queue<T>,
    acquire_timeout: Option<u128>,
    lifecycle: Lifecycle,
    register_inject: queue::Queue<Register>,
    state: PoolState,
    waits: Waits<Resolve<T>, W>,
    shutdowns: Waits<bool, W>,
    spawned: Vec<Operation<ResourceInfo, T>>,
    woken: Vec<W>,
    handles: usize,
    mgr: Manager,
}

impl<T, W> View for PoolInner<T, W> {
    type V = PoolView<T, W>;

    closed spec fn view(&self) -> PoolView<T, W> {
        PoolView {
            queue: self.queue@,
            acquire_timeout: self.acquire_timeout,
            registers: self.register_inject.items(),
            state: self.state,
            handlers: self.lifecycle@,
            waits: self.waits@,
            shutdowns: self.shutdowns@,
            spawned: self.spawned@,
            woken: self.woken@,
            handles: self.handles,
            mgr: self.mgr@,
        }
    }
}

impl<T, W> PoolInner<T, W> {
    /// What holds of the parts.
    spec fn parts_wf(&self) -> bool {
        &&& self.queue.wf()
        &&& self.register_inject.boundless()
        &&& self.waits.wf()
        &&& self.shutdowns.wf()
    }

    /// What holds of a pool at all times.
    pub closed spec fn wf(&self) -> bool {
        &&& self.parts_wf()
        &&& pool_inv(self@)
    }

    /// What holds of a pool at all times.
    pub broadcast proof fn lemma_wf(&self)
        requires
            #[trigger] self.wf(),
        ensures
            pool_inv(self@),
    {
    }

    /// Create a pool.
    pub fn new(
        lifecycle: Lifecycle,
        acquire_timeout: Option<u128>,
        idle_timeout: Option<u128>,
        min_count: usize,
        max_count: Option<usize>,
    ) -> (r: Self)
        ensures
            r.wf(),
            r@ == fresh_pool::<T, W>(
                fresh_queue(min_count, max_count, idle_timeout),
                acquire_timeout,
                lifecycle@,
            ),
    {
        PoolInner {
            queue: Queue::new(min_count, max_count, idle_timeout),
            acquire_timeout,
            lifecycle,
            register_inject: queue::Queue::unbounded(),
            state: PoolState::Active,
            waits: Waits::new(),
            shutdowns: Waits::new(),
            spawned: Vec::new(),
            woken: Vec::new(),
            handles: 1,
            mgr: Manager {
                repo: Vec::new(),
                timer_id: 0,
                timers: Timers::new(),
                waiters: VecDeque::new(),
            },
        }
    }

    /// The number of resources, if another may be created.
    pub fn create_from_count(&self) -> (r: Option<usize>)
        ensures
            r == (if can_create(self@.queue) {
                Some(self@.queue.count)
            } else {
                None
            }),
    {
        let count: usize = self.queue.count();
        match self.queue.max_count() {
            Some(max) => {
                if max > count {
                    Some(count)
                } else {
                    None
                }
            },
            None => Some(count),
        }
    }

    /// Report an error of work in the background. Returns the error if somebody
    /// wants to see it.
    pub fn handle_error<E>(&self, err: E) -> (r: Option<E>)
        ensures
            r == (if self@.handlers.handle_error {
                Some(err)
            } else {
                None
            }),
    {
        self.lifecycle.handle_error(err)
    }

    /// Create a resource, if there may be another.
    pub fn try_create(&mut self, now: u128) -> (r: Resolve<T>)
        requires
            old(self).wf(),
            old(self)@.queue.cells.len() < usize::MAX,
        ensures
            final(self).wf(),
            extends(old(self)@, final(self)@),
            r == try_created(old(self)@.queue, now),
            resolve_known(final(self)@.queue.cells, r),
            final(self)@ == with_queue(old(self)@, after_try_create(old(self)@.queue)),
    {
        let mut count: usize = match self.create_from_count() {
            Some(c) => c,
            None => {
                return ResourceResolve::empty();
            },
        };
        loop
            invariant
                self.wf(),
                self@ == old(self)@,
                self@.queue.cells.len() < usize::MAX,
                can_create(self@.queue),
                count == self@.queue.count,
            decreases 0int,
        {
            match self.queue.try_update_count(count, count.wrapping_add(1)) {
                Ok(_) => {
                    let guard: Guard<T> = self.queue.create_lock(now);
                    proof {
                        lemma_inv_queue(old(self)@, self.queue@);
                        assert(guard@ == created_guard(old(self)@.queue, now));
                    }
                    return self.lifecycle.create(guard);
                },
                Err(c) => {
                    if let Some(max) = self.queue.max_count() {
                        if c > count && max != 0 && c > max {
                            // Count was increased beyond max by somebody else
                            return ResourceResolve::empty();
                        }
                    }
                    count = c;
                },
            }
        }
    }

    /// Have work done in the background, or return a resource that nobody took.
    pub fn complete_resolve(&mut self, res: Resolve<T>, now: u128)
        requires
            old(self).wf(),
            res matches ResourceResolve::Resource(Some(guard)) ==> known(
                old(self)@.queue.cells,
                guard@.lock,
            ),
            in_time(now, old(self)@.queue.idle_timeout),
        ensures
            final(self).wf(),
            extends(old(self)@, final(self)@),
            match res {
                ResourceResolve::Future(operation) => final(self)@ == after_spawn(
                    old(self)@,
                    operation,
                ),
                ResourceResolve::Resource(Some(guard)) => final(self)@ == with_queue(
                    old(self)@,
                    after_release(old(self)@.queue, guard@, now),
                ),
                ResourceResolve::Resource(None) => final(self)@ == old(self)@,
            },
    {
        match res {
            ResourceResolve::Future(operation) => {
                self.spawned.push(operation);
                proof {
                    lemma_inv_waits(old(self)@, self@);
                }
            },
            ResourceResolve::Resource(Some(guard)) => self.release(guard, now),
            ResourceResolve::Resource(None) => {},
        }
    }

    /// Have work done in the background that nobody waits for any more.
    pub fn release_future(&mut self, operation: Operation<ResourceInfo, T>)
        requires
            old(self).wf(),
        ensures
            final(self).wf(),
            extends(old(self)@, final(self)@),
            final(self)@ == after_spawn(old(self)@, operation),
    {
        self.spawned.push(operation);
        proof {
            lemma_inv_waits(old(self)@, self@);
        }
    }

    /// Take in the outcome of work in the background. Returns the error that
    /// somebody wants to see.
    pub fn resolved<E>(&mut self, outcome: Option<Result<Guard<T>, (E, Guard<T>)>>, now: u128) -> (r:
        Option<E>)
        requires
            old(self).wf(),
            match outcome {
                Some(Ok(guard)) => known(old(self)@.queue.cells, guard@.lock),
                Some(Err((_, guard))) => known(old(self)@.queue.cells, guard@.lock),
                None => true,
            },
            in_time(now, old(self)@.queue.idle_timeout),
        ensures
            final(self).wf(),
            extends(old(self)@, final(self)@),
            match outcome {
                Some(Ok(guard)) => {
                    &&& r is None
                    &&& final(self)@ == with_queue(
                        old(self)@,
                        after_release(old(self)@.queue, guard@, now),
                    )
                },
                Some(Err((err, guard))) => {
                    &&& r == (if old(self)@.handlers.handle_error {
                        Some(err)
                    } else {
                        None
                    })
                    &&& final(self)@ == with_queue(
                        old(self)@,
                        QueueView {
                            cells: crate::resource::lock::after_unlock(
                                old(self)@.queue.cells,
                                guard@,
                            ),
                            ..old(self)@.queue
                        },
                    )
                },
                None => r is None && final(self)@ == old(self)@,
            },
    {
        match outcome {
            Some(Ok(guard)) => {
                self.release(guard, now);
                None
            },
            Some(Err((err, guard))) => {
                self.abandon(guard);
                self.handle_error(err)
            },
            None => None,
        }
    }

    /// Return a resource.
    pub fn release(&mut self, guard: Guard<T>, now: u128)
        requires
            old(self).wf(),
            known(old(self)@.queue.cells, guard@.lock),
            in_time(now, old(self)@.queue.idle_timeout),
        ensures
            final(self).wf(),
            extends(old(self)@, final(self)@),
            final(self)@ == with_queue(old(self)@, after_release(old(self)@.queue, guard@, now)),
    {
        self.queue.release(guard, now);
        proof {
            lemma_inv_queue(old(self)@, self.queue@);
        }
    }

    /// Give back the guard of a resource on which work failed.
    pub fn abandon(&mut self, guard: Guard<T>)
        requires
            old(self).wf(),
            known(old(self)@.queue.cells, guard@.lock),
        ensures
            final(self).wf(),
            extends(old(self)@, final(self)@),
            final(self)@ == with_queue(
                old(self)@,
                QueueView {
                    cells: crate::resource::lock::after_unlock(old(self)@.queue.cells, guard@),
                    ..old(self)@.queue
                },
            ),
    {
        self.queue.abandon(guard);
        proof {
            lemma_inv_queue(old(self)@, self.queue@);
        }
    }

    /// The number of resources.
    pub fn count(&self) -> (r: usize)
        ensures
            r == self@.queue.count,
    {
        self.queue.count()
    }

    /// How far the pool has come.
    pub fn state(&self) -> (r: PoolState)
        ensures
            r == self@.state,
    {
        self.state
    }

    /// What the users and the manager share.
    pub fn queue(&self) -> (r: &Queue<T>)
        ensures
            r@ == self@.queue,
    {
        &self.queue
    }

    /// Note that nobody uses the pool any more. Returns `false` if its manager has
    /// stopped.
    pub fn shutdown(&mut self) -> (r: bool)
        requires
            old(self).wf(),
        ensures
            final(self).wf(),
            extends(old(self)@, final(self)@),
            r == !(old(self)@.state is Stopped),
            final(self)@ == after_shutdown(old(self)@),
    {
        match self.state {
            PoolState::Active | PoolState::Shutdown => {
                self.state = PoolState::Shutdown;
                self.queue.notify();
                proof {
                    lemma_inv_queue(old(self)@, self.queue@);
                    lemma_inv_waits(with_queue(old(self)@, self.queue@), self@);
                }
                true
            },
            PoolState::Stopped => false,
        }
    }

    /// Hand out a resource that was returned, if there is one and nobody waits.
    pub fn try_acquire_idle(&mut self, now: u128) -> (r: Resolve<T>)
        requires
            old(self).wf(),
        ensures
            final(self).wf(),
            extends(old(self)@, final(self)@),
            r == idle_resource(old(self)@.queue, now),
            resolve_known(final(self)@.queue.cells, r),
            final(self)@ == with_queue(old(self)@, after_idle(old(self)@.queue)),
    {
        if self.queue.is_busy() {
            return ResourceResolve::empty();
        }
        proof {
            lemma_live_idle(self@.queue.idle, self@.queue.cells);
        }
        let found: Option<Guard<T>> = self.queue.try_acquire_idle(now);
        proof {
            lemma_inv_queue(old(self)@, self.queue@);
        }
        ResourceResolve::Resource(found)
    }

    /// Wait for a resource.
    pub fn try_wait(&mut self, started: u128) -> (r: Waiter)
        requires
            old(self).wf(),
            old(self)@.waits.len() < usize::MAX,
            in_time(started, old(self)@.acquire_timeout),
        ensures
            final(self).wf(),
            extends(old(self)@, final(self)@),
            r.id() == old(self)@.waits.len(),
            final(self)@ == after_try_wait(old(self)@, started),
    {
        let (send, receive) = self.waits.waiter_pair();
        let _ = self.register_inject.push(Register::Waiter(started, send));
        self.queue.notify();
        proof {
            let p = old(self)@;
            let q = self@;
            lemma_inv_queue(p, q.queue);
            lemma_inv_waits(
                with_queue(p, q.queue),
                PoolView { registers: p.registers, ..q },
            );
            lemma_inv_register(p, q, Register::Waiter(started, send));
        }
        receive
    }

    /// Ask to be told whether the pool is empty at a time.
    pub fn ask_shutdown(&mut self, expire: u128) -> (r: Waiter)
        requires
            old(self).wf(),
            old(self)@.shutdowns.len() < usize::MAX,
        ensures
            final(self).wf(),
            extends(old(self)@, final(self)@),
            r.id() == old(self)@.shutdowns.len(),
            final(self)@ == after_ask_shutdown(old(self)@, expire),
    {
        let (send, receive) = self.shutdowns.waiter_pair();
        let _ = self.register_inject.push(Register::Shutdown(expire, send));
        proof {
            let p = old(self)@;
            let q = self@;
            lemma_inv_waits(p, PoolView { registers: p.registers, ..q });
            lemma_inv_register(p, q, Register::Shutdown(expire, send));
        }
        receive
    }

    fn dispose(&mut self, guard: Guard<T>)
        requires
            old(self).wf(),
            known(old(self)@.queue.cells, guard@.lock),
        ensures
            final(self).wf(),
            extends(old(self)@, final(self)@),
            final(self)@ == after_dispose(old(self)@, guard@),
    {
        let lifecycle: Lifecycle = self.lifecycle;
        let op: Resolve<T> = lifecycle.dispose(guard, &mut self.queue);
        proof {
            lemma_inv_queue(old(self)@, self@.queue);
        }
        if let ResourceResolve::Future(operation) = op {
            self.release_future(operation);
        }
    }

    /// Look after a resource that was unused for too long: have it disposed of if
    /// there are more than are kept, and kept alive otherwise.
    pub fn verify(&mut self, guard: Guard<T>)
        requires
            old(self).wf(),
            known(old(self)@.queue.cells, guard@.lock),
        ensures
            final(self).wf(),
            extends(old(self)@, final(self)@),
            final(self)@ == after_verify(old(self)@, guard@),
    {
        if self.queue.count() > self.queue.min_count() {
            self.dispose(guard);
        } else {
            let lifecycle: Lifecycle = self.lifecycle;
            let op: Resolve<T> = lifecycle.keepalive(guard, &mut self.queue);
            proof {
                lemma_inv_queue(old(self)@, self@.queue);
            }
            if let ResourceResolve::Future(operation) = op {
                self.release_future(operation);
            }
        }
    }
}

impl<T, W> PoolInner<T, W> {
    fn push_woken(&mut self, waker: Option<W>)
        ensures
            final(self)@ == (PoolView {
                woken: also_woken(old(self)@.woken, waker),
                ..old(self)@
            }),
            old(self).parts_wf() ==> final(self).parts_wf(),
    {
        if let Some(waker) = waker {
            self.woken.push(waker);
        }
    }

    fn cancel_wait(&mut self, to: WaitResponder)
        requires
            old(self).wf(),
            awaited(old(self)@.waits, to),
        ensures
            final(self).wf(),
            extends(old(self)@, final(self)@),
            final(self)@ == after_cancel_wait(old(self)@, to),
    {
        let waker: Option<W> = self.waits.cancel(to);
        self.push_woken(waker);
        proof {
            lemma_inv_waits(old(self)@, self@);
        }
    }

    fn expire_timer(&mut self, entry: TimerEntry<Timer>, now: u128)
        requires
            old(self).wf(),
            timer_known(old(self)@, entry.2),
            in_time(now, old(self)@.queue.idle_timeout),
            old(self)@.queue.cells.len() < usize::MAX,
        ensures
            final(self).wf(),
            extends(old(self)@, final(self)@),
            final(self)@ == after_timer(old(self)@, entry, now),
            final(self)@.registers == old(self)@.registers,
            final(self)@.mgr.timers == old(self)@.mgr.timers,
            final(self)@.mgr.timer_id == old(self)@.mgr.timer_id,
            final(self)@.waits.len() == old(self)@.waits.len(),
            final(self)@.shutdowns.len() == old(self)@.shutdowns.len(),
            final(self)@.queue.idle_timeout == old(self)@.queue.idle_timeout,
            final(self)@.queue.cells.len() <= old(self)@.queue.cells.len() + 1,
            final(self)@.queue.events.len() <= old(self)@.queue.events.len() + 1,
    {
        match entry.2 {
            Timer::Shutdown(to) => {
                // Just drop the shutdown timer to indicate we haven't finished
                let waker: Option<W> = self.shutdowns.cancel(to);
                self.push_woken(waker);
                proof {
                    lemma_inv_waits(old(self)@, self@);
                }
            },
            Timer::Verify(res) => {
                if let Some(locked) = self.queue.try_lock(res) {
                    // Any clone of the resource lock in the idle queue can't be
                    // acquired at the moment, so forget that lock and create a
                    // new one
                    repo::remove(&mut self.mgr.repo, locked.as_lock());
                    let guard: Guard<T> = self.queue.detach(locked);
                    proof {
                        let p = old(self)@;
                        assert(guard@ == detached(p.queue, res));
                        assert(self@ == after_manager_detach(p, res));
                        lemma_repo(p.mgr.repo, p.queue.cells, res);
                        lemma_inv_mgr(p, with_mgr(p, self@.mgr));
                        lemma_inv_queue(with_mgr(p, self@.mgr), self@.queue);
                    }
                    let ghost moved = self@;

                    if guard.is_some() && guard.info().verify_at == Some(entry.0) {
                        // Act upon the verify timer
                        self.verify(guard);
                    } else {
                        // The resource was reacquired and released after the
                        // verify timer was set, put it back into the idle queue.
                        repo::insert(&mut self.mgr.repo, guard.as_lock());
                        let ghost noted = self@;
                        proof {
                            lemma_repo(moved.mgr.repo, moved.queue.cells, guard@.lock);
                            lemma_inv_mgr(moved, noted);
                        }
                        self.queue.release(guard, now);
                        proof {
                            lemma_inv_queue(noted, self@.queue);
                        }
                    }
                } else {
                    // If the resource is locked, then a consumer has acquired it
                    // or is in the process of doing so, nothing to do here
                }
            },
            Timer::Waiter(to) => {
                // Try to cancel the waiter. This will only succeed if the
                // waiter hasn't been fulfilled already.
                self.cancel_wait(to);
            },
        }
    }

    /// Deal with the timers that have expired.
    pub fn expire_timers(&mut self, now: u128)
        requires
            old(self).wf(),
            in_time(now, old(self)@.queue.idle_timeout),
            old(self)@.queue.cells.len() + old(self)@.mgr.timers.len() <= usize::MAX,
        ensures
            final(self).wf(),
            extends(old(self)@, final(self)@),
            final(self)@ == after_expiry(old(self)@, now),
            final(self)@.registers == old(self)@.registers,
            final(self)@.mgr.timers == remaining(old(self)@.mgr.timers, now),
            final(self)@.mgr.timer_id == old(self)@.mgr.timer_id,
            final(self)@.queue.idle_timeout == old(self)@.queue.idle_timeout,
            final(self)@.queue.events.len() <= old(self)@.queue.events.len() + old(
                self,
            )@.mgr.timers.len(),
    {
        let entries: Vec<TimerEntry<Timer>> = self.mgr.timers.split_off(now);
        let ghost start = self@;
        proof {
            let p = old(self)@;
            law_split(p.mgr.timers, now);
            let n = entries@.len() as int;
            assert forall|i: int| 0 <= i < start.registers.len() implies register_known(
                start,
                #[trigger] start.registers[i],
            ) by {
                assert(register_known(p, p.registers[i]));
            }
            assert forall|i: int| 0 <= i < start.mgr.timers.len() implies timer_known(
                start,
                (#[trigger] start.mgr.timers[i]).2,
            ) && start.mgr.timers[i].1 <= start.mgr.timer_id by {
                assert(start.mgr.timers[i] == p.mgr.timers[i + n]);
                assert(timer_known(p, p.mgr.timers[i + n].2));
            }
            assert forall|i: int| 0 <= i < start.waits.len() implies reply_known(
                start.queue.cells,
                #[trigger] start.waits[i],
            ) by {
                assert(reply_known(p.queue.cells, p.waits[i]));
            }
            assert forall|i: int| 0 <= i < start.mgr.waiters.len() implies awaited(
                start.waits,
                #[trigger] start.mgr.waiters[i],
            ) by {
                assert(awaited(p.waits, p.mgr.waiters[i]));
            }
            assert(pool_inv(start));
            assert forall|i: int| 0 <= i < entries@.len() implies timer_known(
                start,
                (#[trigger] entries@[i]).2,
            ) by {
                assert(entries@[i] == p.mgr.timers[i]);
                assert(timer_known(p, p.mgr.timers[i].2));
            }
        }
        let mut i: usize = 0;
        while i < entries.len()
            invariant
                i <= entries@.len(),
                entries@.len() <= old(self)@.mgr.timers.len(),
                old(self)@.queue.cells.len() + old(self)@.mgr.timers.len() <= usize::MAX,
                self.wf(),
                extends(old(self)@, self@),
                in_time(now, old(self)@.queue.idle_timeout),
                self@ == after_timers(start, entries@.take(i as int), now),
                self@.registers == old(self)@.registers,
                self@.mgr.timers == start.mgr.timers,
                self@.mgr.timer_id == old(self)@.mgr.timer_id,
                self@.waits.len() == start.waits.len(),
                self@.shutdowns.len() == start.shutdowns.len(),
                self@.queue.idle_timeout == old(self)@.queue.idle_timeout,
                start.queue.cells.len() <= self@.queue.cells.len(),
                start.queue.cells.len() == old(self)@.queue.cells.len(),
                self@.queue.cells.len() <= old(self)@.queue.cells.len() + i,
                self@.queue.events.len() <= old(self)@.queue.events.len() + i,
                forall|j: int|
                    0 <= j < entries@.len() ==> timer_known(start, (#[trigger] entries@[j]).2),
            decreases entries@.len() - i,
        {
            let ghost mid = self@;
            assert(timer_known(start, entries@[i as int].2));
            self.expire_timer(entries[i], now);
            proof {
                let done = entries@.take(i + 1);
                assert(done.drop_last() =~= entries@.take(i as int));
                assert(done.last() == entries@[i as int]);
            }
            i = i + 1;
        }
        assert(entries@.take(i as int) =~= entries@);
    }

    fn set_timer(&mut self, at: u128, timer: Timer)
        requires
            old(self).wf(),
            timer_known(old(self)@, timer),
            old(self)@.mgr.timer_id < usize::MAX,
        ensures
            final(self).wf(),
            extends(old(self)@, final(self)@),
            final(self)@ == with_mgr(old(self)@, after_set_timer(old(self)@.mgr, at, timer)),
    {
        self.mgr.timer_id = self.mgr.timer_id + 1;
        self.mgr.timers.insert(at, self.mgr.timer_id, timer);
        proof {
            lemma_inv_timer(old(self)@, at, timer);
        }
    }

    /// Take in the news.
    pub fn take_events(&mut self)
        requires
            old(self).wf(),
            old(self)@.mgr.timer_id + old(self)@.queue.events.len() <= usize::MAX,
        ensures
            final(self).wf(),
            extends(old(self)@, final(self)@),
            final(self)@ == after_news(old(self)@),
            final(self)@.mgr.timer_id <= old(self)@.mgr.timer_id + old(self)@.queue.events.len(),
    {
        let ghost all = self@.queue.events;
        let ghost mut done: int = 0;
        assert(all.take(0) =~= Seq::<QueueEvent>::empty());
        assert(all.skip(0) =~= all);
        loop
            invariant
                all == old(self)@.queue.events,
                0 <= done <= all.len(),
                old(self)@.mgr.timer_id + all.len() <= usize::MAX,
                self.wf(),
                extends(old(self)@, self@),
                self@ == (PoolView {
                    queue: QueueView { events: all.skip(done), ..old(self)@.queue },
                    mgr: after_events(old(self)@.mgr, all.take(done)),
                    ..old(self)@
                }),
                self@.mgr.timer_id <= old(self)@.mgr.timer_id + done,
            decreases all.len() - done,
        {
            let ghost before = self@;
            match self.queue.pop_event() {
                Some(event) => {
                    let ghost popped = self@;
                    proof {
                        assert(event == all[done]);
                        assert(before.queue.events[0] == event);
                        assert(popped.queue.events =~= all.skip(done + 1));
                        assert(all.take(done + 1).drop_last() =~= all.take(done));
                        lemma_inv_queue(before, popped.queue);
                        assert(pool_inv(popped));
                    }
                    match event {
                        QueueEvent::Created(res) => {
                            repo::insert(&mut self.mgr.repo, res);
                            proof {
                                lemma_repo(popped.mgr.repo, popped.queue.cells, res);
                                lemma_inv_repo(popped, self@);
                            }
                        },
                        QueueEvent::Disposed(res) => {
                            repo::remove(&mut self.mgr.repo, res);
                            proof {
                                lemma_repo(popped.mgr.repo, popped.queue.cells, res);
                                lemma_inv_repo(popped, self@);
                            }
                        },
                        QueueEvent::Verify(expire, res) => {
                            self.set_timer(expire, Timer::Verify(res));
                        },
                    }
                    proof {
                        done = done + 1;
                    }
                },
                None => {
                    proof {
                        assert(all.skip(done) =~= Seq::<QueueEvent>::empty());
                        assert(all.take(done) =~= all);
                    }
                    return;
                },
            }
        }
    }

    /// Take in the requests.
    pub fn take_requests(&mut self)
        requires
            old(self).wf(),
            old(self)@.mgr.timer_id + old(self)@.registers.len() <= usize::MAX,
        ensures
            final(self).wf(),
            extends(old(self)@, final(self)@),
            final(self)@ == after_inbox(old(self)@),
    {
        let ghost all = self@.registers;
        let ghost timeout = self@.acquire_timeout;
        let ghost mut done: int = 0;
        assert(all.take(0) =~= Seq::<Register>::empty());
        assert(all.skip(0) =~= all);
        loop
            invariant
                all == old(self)@.registers,
                timeout == old(self)@.acquire_timeout,
                0 <= done <= all.len(),
                old(self)@.mgr.timer_id + all.len() <= usize::MAX,
                self.wf(),
                extends(old(self)@, self@),
                self@ == (PoolView {
                    registers: all.skip(done),
                    mgr: after_requests(old(self)@.mgr, timeout, all.take(done)),
                    ..old(self)@
                }),
                self@.mgr.timer_id <= old(self)@.mgr.timer_id + done,
            decreases all.len() - done,
        {
            let ghost before = self@;
            match self.register_inject.pop() {
                Ok(register) => {
                    let ghost popped = self@;
                    proof {
                        assert(register == all[done]);
                        assert(before.registers[0] == register);
                        assert(popped.registers =~= all.skip(done + 1));
                        assert(all.take(done + 1).drop_last() =~= all.take(done));
                        assert(register_known(before, before.registers[0]));
                        assert forall|i: int|
                            0 <= i < popped.registers.len() implies before.registers.contains(
                            #[trigger] popped.registers[i],
                        ) by {
                            assert(before.registers[i + 1] == popped.registers[i]);
                        }
                        lemma_inv_mgr(before, popped);
                    }
                    match register {
                        Register::Shutdown(expire, notify) => {
                            self.set_timer(expire, Timer::Shutdown(notify));
                        },
                        Register::Waiter(start, waiter) => {
                            if let Some(dur) = self.acquire_timeout {
                                self.set_timer(start + dur, Timer::Waiter(waiter));
                            }
                            let ghost timed = self@;
                            self.mgr.waiters.push_back(waiter);
                            proof {
                                lemma_inv_mgr(timed, self@);
                            }
                        },
                    }
                    proof {
                        done = done + 1;
                    }
                },
                Err(_) => {
                    proof {
                        assert(all.skip(done) =~= Seq::<Register>::empty());
                        assert(all.take(done) =~= all);
                    }
                    return;
                },
            }
        }
    }

    fn pop_waiter(&mut self)
        requires
            old(self).wf(),
            old(self)@.mgr.waiters.len() > 0,
        ensures
            final(self).wf(),
            extends(old(self)@, final(self)@),
            final(self)@ == after_waiter(old(self)@),
    {
        let _ = self.mgr.waiters.pop_front();
        proof {
            let p = old(self)@;
            let q = self@;
            assert(q.mgr.waiters =~= p.mgr.waiters.drop_first());
            assert forall|i: int| 0 <= i < q.mgr.waiters.len() implies awaited(
                p.waits,
                #[trigger] q.mgr.waiters[i],
            ) by {
                assert(awaited(p.waits, p.mgr.waiters[i + 1]));
            }
            lemma_inv_mgr(p, q);
        }
    }

    /// Serve those who wait, as long as there are resources.
    pub fn serve_waiters(&mut self, now: u128)
        requires
            old(self).wf(),
        ensures
            final(self).wf(),
            extends(old(self)@, final(self)@),
            final(self)@ == after_waiters(old(self)@, now),
    {
        // This triggers released resources to go to the idle queue even when
        // there is no idle timeout, and prevents subsequent acquires from stealing
        // directly from the idle queue so that the waiters are completed first
        let busy: bool = self.mgr.waiters.len() > 0;
        self.queue.set_busy(busy);
        let ghost told = self@;
        proof {
            lemma_inv_queue(old(self)@, told.queue);
        }
        if !busy || !(self.queue.have_idle() || self.create_from_count().is_some()) {
            return;
        }
        let mut more: bool = true;
        while more
            invariant
                self.wf(),
                extends(old(self)@, self@),
                !more ==> self@ == served(told, now),
                more ==> served(self@, now) == served(told, now),
            decreases self@.mgr.waiters.len() + if more {
                1int
            } else {
                0int
            },
        {
            let ghost before = self@;
            if self.mgr.waiters.len() == 0 {
                more = false;
            } else {
                let waiter: WaitResponder = self.mgr.waiters[0];
                assert(waiter == before.mgr.waiters[0]);
                if self.waits.is_abandoned(waiter) {
                    self.pop_waiter();
                } else {
                    proof {
                        lemma_live_idle(before.queue.idle, before.queue.cells);
                    }
                    // Bypasses busy check because we are satisfying waiters
                    let found: Option<Guard<T>> = self.queue.try_acquire_idle(now);
                    proof {
                        lemma_inv_queue(before, self@.queue);
                    }
                    match found {
                        Some(idle) => {
                            let ghost taken = self@;
                            let (_, waker): (Result<(), Resolve<T>>, Option<W>) = self.waits.send(
                                waiter,
                                ResourceResolve::Resource(Some(idle)),
                            );
                            self.push_woken(waker);
                            proof {
                                lemma_inv_waits(taken, self@);
                            }
                            self.pop_waiter();
                        },
                        None => {
                            // No resources available
                            more = false;
                        },
                    }
                }
            }
        }
    }
}

impl<T, W> PoolInner<T, W> {
    fn retain(&mut self)
        requires
            old(self).wf(),
        ensures
            final(self).wf(),
            extends(old(self)@, final(self)@),
            final(self)@ == after_retain(old(self)@),
    {
        self.queue.retain_occupied(&mut self.mgr.repo);
        proof {
            let p = old(self)@;
            lemma_repo(p.mgr.repo, p.queue.cells, ResourceLock::at(0));
            lemma_inv_mgr(p, self@);
        }
    }

    /// Look at how far the pool has come.
    ///
    /// Once nobody uses the pool any more, everything that is not in use is disposed
    /// of. Returns whether the pool is empty then.
    pub fn check(&mut self) -> (r: bool)
        requires
            old(self).wf(),
        ensures
            final(self).wf(),
            extends(old(self)@, final(self)@),
            final(self)@ == after_check(old(self)@),
            r == is_emptied(final(self)@),
    {
        if let PoolState::Shutdown = self.state {
            let mut i: usize = 0;
            assert(self@.mgr.repo.take(0) =~= Seq::<ResourceLock>::empty());
            while i < self.mgr.repo.len()
                invariant
                    self.wf(),
                    extends(old(self)@, self@),
                    i <= self@.mgr.repo.len(),
                    self@.mgr.repo == old(self)@.mgr.repo,
                    self.mgr.repo@ == self@.mgr.repo,
                    self@ == after_evictions(old(self)@, self@.mgr.repo.take(i as int)),
                    self@.state == old(self)@.state,
                decreases self@.mgr.repo.len() - i,
            {
                let ghost before = self@;
                let res: ResourceLock = self.mgr.repo[i];
                proof {
                    assert(res == before.mgr.repo[i as int]);
                    let done = before.mgr.repo.take(i + 1);
                    assert(done.drop_last() =~= before.mgr.repo.take(i as int));
                    assert(done.last() == res);
                }
                if let Some(guard) = self.queue.try_lock(res) {
                    proof {
                        lemma_inv_queue(before, self@.queue);
                    }
                    self.dispose(guard);
                }
                assert(self@ == after_evict(before, res));
                i = i + 1;
            }
            assert(self@.mgr.repo.take(i as int) =~= self@.mgr.repo);
            self.retain();
            self.mgr.repo.len() == 0
        } else {
            false
        }
    }

    /// Stop the manager.
    ///
    /// Those who wait for the pool to be empty learn that it is; everyone else who waits
    /// learns that there is nothing to wait for.
    pub fn stop(&mut self)
        requires
            old(self).wf(),
        ensures
            final(self).wf(),
            extends(old(self)@, final(self)@),
            final(self)@ == after_stop(old(self)@),
    {
        let entries: Vec<TimerEntry<Timer>> = self.mgr.timers.take_all();
        let waiters: VecDeque<WaitResponder> = exchange(&mut self.mgr.waiters, VecDeque::new());
        let ghost cleared = self@.mgr;
        let ghost p = old(self)@;
        proof {
            assert forall|i: int| 0 <= i < self@.registers.len() implies register_known(
                self@,
                #[trigger] self@.registers[i],
            ) by {
                assert(register_known(p, p.registers[i]));
            }
            assert(entries@.take(0) =~= Seq::<TimerEntry<Timer>>::empty());
            assert(cleared == (ManagerView {
                timers: Seq::<TimerEntry<Timer>>::empty(),
                waiters: Seq::<WaitResponder>::empty(),
                ..p.mgr
            }));
        }
        let mut i: usize = 0;
        while i < entries.len()
            invariant
                i <= entries@.len(),
                p == old(self)@,
                entries@ == p.mgr.timers,
                pool_inv(p),
                self.wf(),
                extends(old(self)@, self@),
                after_last_timers(p, entries@.take(i as int)).mgr == p.mgr,
                self@ == with_mgr(after_last_timers(p, entries@.take(i as int)), cleared),
                self@.waits.len() == p.waits.len(),
                self@.shutdowns.len() == p.shutdowns.len(),
            decreases entries@.len() - i,
        {
            let ghost before = self@;
            proof {
                assert(timer_known(p, p.mgr.timers[i as int].2));
                let done = entries@.take(i + 1);
                assert(done.drop_last() =~= entries@.take(i as int));
                assert(done.last() == entries@[i as int]);
            }
            match entries[i].2 {
                Timer::Shutdown(waiter) => {
                    // Send true to indicate that the shutdown succeeded.
                    // Not bothered if the send fails.
                    let (_, waker): (Result<(), bool>, Option<W>) = self.shutdowns.send(
                        waiter,
                        true,
                    );
                    self.push_woken(waker);
                },
                // Drop any other waiters, leading them to be cancelled
                Timer::Waiter(waiter) => self.cancel_wait(waiter),
                Timer::Verify(_) => {},
            }
            proof {
                lemma_inv_waits(before, self@);
            }
            i = i + 1;
        }
        let ghost told = after_last_timers(p, entries@);
        proof {
            assert(entries@.take(i as int) =~= entries@);
            assert(waiters@.take(0) =~= Seq::<WaitResponder>::empty());
        }
        let mut j: usize = 0;
        while j < waiters.len()
            invariant
                j <= waiters@.len(),
                p == old(self)@,
                waiters@ == p.mgr.waiters,
                pool_inv(p),
                self.wf(),
                extends(old(self)@, self@),
                after_dismiss(told, waiters@.take(j as int)).mgr == p.mgr,
                self@ == with_mgr(after_dismiss(told, waiters@.take(j as int)), cleared),
                self@.waits.len() == p.waits.len(),
            decreases waiters@.len() - j,
        {
            let ghost before = self@;
            proof {
                assert(awaited(p.waits, p.mgr.waiters[j as int]));
                let done = waiters@.take(j + 1);
                assert(done.drop_last() =~= waiters@.take(j as int));
                assert(done.last() == waiters@[j as int]);
            }
            self.cancel_wait(waiters[j]);
            proof {
                lemma_inv_waits(before, self@);
            }
            j = j + 1;
        }
        proof {
            assert(waiters@.take(j as int) =~= waiters@);
        }
        let ghost before = self@;
        self.state = PoolState::Stopped;
        proof {
            lemma_inv_waits(before, self@);
        }
    }

    /// One round of the manager.
    ///
    /// The manager does it whenever it is notified, and when the time has come up
    /// to which it was to wait.
    pub fn manage(&mut self, now: u128) -> (r: Rest)
        requires
            old(self).wf(),
            in_time(now, old(self)@.queue.idle_timeout),
            old(self)@.queue.cells.len() + old(self)@.mgr.timers.len() <= usize::MAX,
            old(self)@.mgr.timer_id + old(self)@.queue.events.len() + old(self)@.mgr.timers.len()
                + old(self)@.registers.len() <= usize::MAX,
        ensures
            final(self).wf(),
            extends(old(self)@, final(self)@),
            final(self)@ == after_round(after_work(old(self)@, now)),
            r == rest_after(
                after_work(old(self)@, now),
                next_check(after_expiry(old(self)@, now).mgr.timers),
            ),
            pool_inv(after_expiry(old(self)@, now)),
            pool_inv(after_work(old(self)@, now)),
    {
        self.expire_timers(now);
        let next_check: Option<u128> = self.mgr.timers.first();
        self.take_events();
        self.take_requests();
        self.serve_waiters(now);
        if self.check() {
            self.stop();
            Rest::Stop
        } else {
            Rest::Wait(next_check)
        }
    }
}

impl<T, W> PoolInner<T, W> {
    /// Check whether the manager is to be woken, which is then up to the caller.
    pub fn take_notified(&mut self) -> (r: bool)
        requires
            old(self).wf(),
        ensures
            final(self).wf(),
            extends(old(self)@, final(self)@),
            r == old(self)@.queue.notified,
            final(self)@ == with_queue(
                old(self)@,
                QueueView { notified: false, ..old(self)@.queue },
            ),
    {
        let notified: bool = self.queue.take_notified();
        proof {
            lemma_inv_queue(old(self)@, self@.queue);
        }
        notified
    }

    /// Take the work that is to be done in the background.
    pub fn take_spawned(&mut self) -> (r: Vec<Operation<ResourceInfo, T>>)
        requires
            old(self).wf(),
        ensures
            final(self).wf(),
            extends(old(self)@, final(self)@),
            r@ == old(self)@.spawned,
            final(self)@ == (PoolView {
                spawned: Seq::<Operation<ResourceInfo, T>>::empty(),
                ..old(self)@
            }),
    {
        let spawned: Vec<Operation<ResourceInfo, T>> = exchange(&mut self.spawned, Vec::new());
        proof {
            lemma_inv_waits(old(self)@, self@);
        }
        spawned
    }

    /// Take the wakers that are due.
    pub fn take_woken(&mut self) -> (r: Vec<W>)
        requires
            old(self).wf(),
        ensures
            final(self).wf(),
            extends(old(self)@, final(self)@),
            r@ == old(self)@.woken,
            final(self)@ == (PoolView { woken: Seq::<W>::empty(), ..old(self)@ }),
    {
        let woken: Vec<W> = exchange(&mut self.woken, Vec::new());
        proof {
            lemma_inv_waits(old(self)@, self@);
        }
        woken
    }

    /// Check whether the pool is empty, leaving a waker if it is not decided.
    pub fn poll_shutdown(&mut self, waiter: &Waiter, waker: W) -> (r: Poll<Result<bool, Canceled>>)
        requires
            old(self).wf(),
            0 <= waiter.id() < old(self)@.shutdowns.len(),
            attended(old(self)@.shutdowns[waiter.id()]),
        ensures
            final(self).wf(),
            extends(old(self)@, final(self)@),
            match attempt(old(self)@.shutdowns[waiter.id()].shot, true) {
                Attempt::Ready(res) => r == Poll::Ready(res),
                _ => r is Pending,
            },
            final(self)@ == (PoolView {
                shutdowns: old(self)@.shutdowns.update(
                    waiter.id(),
                    after_poll_wait(old(self)@.shutdowns[waiter.id()], waker),
                ),
                ..old(self)@
            }),
    {
        let found: Poll<Result<bool, Canceled>> = self.shutdowns.poll(waiter, waker);
        proof {
            lemma_inv_waits(old(self)@, self@);
        }
        found
    }

    /// Stop waiting for the pool to be empty.
    pub fn drop_shutdown(&mut self, waiter: Waiter)
        requires
            old(self).wf(),
            0 <= waiter.id() < old(self)@.shutdowns.len(),
            attended(old(self)@.shutdowns[waiter.id()]),
        ensures
            final(self).wf(),
            final(self)@ == (PoolView {
                shutdowns: old(self)@.shutdowns.update(
                    waiter.id(),
                    after_leave(old(self)@.shutdowns[waiter.id()]),
                ),
                ..old(self)@
            }),
    {
        let _ = self.shutdowns.drop_waiter(waiter);
        proof {
            lemma_inv_waits(old(self)@, self@);
        }
    }

    /// Look for the reply to a request for a resource, leaving a waker if it has
    /// yet to come.
    pub fn poll_wait(&mut self, waiter: &Waiter, waker: W) -> (r: Poll<Result<Resolve<T>, Canceled>>)
        requires
            old(self).wf(),
            0 <= waiter.id() < old(self)@.waits.len(),
            attended(old(self)@.waits[waiter.id()]),
        ensures
            final(self).wf(),
            extends(old(self)@, final(self)@),
            match attempt(old(self)@.waits[waiter.id()].shot, true) {
                Attempt::Ready(res) => r == Poll::Ready(res) && (res is Ok ==> resolve_known(
                    final(self)@.queue.cells,
                    res->Ok_0,
                )),
                _ => r is Pending,
            },
            final(self)@ == after_look(old(self)@, waiter.id(), waker),
    {
        assert(reply_known(self@.queue.cells, self@.waits[waiter.id()]));
        let found: Poll<Result<Resolve<T>, Canceled>> = self.waits.poll(waiter, waker);
        proof {
            lemma_inv_waits(old(self)@, self@);
        }
        found
    }

    /// Check whether the reply to a request for a resource is there.
    pub fn is_decided(&self, waiter: &Waiter) -> (r: bool)
        requires
            self.wf(),
            0 <= waiter.id() < self@.waits.len(),
        ensures
            r == !self@.waits[waiter.id()].open,
            attended(self@.waits[waiter.id()]) ==> r == (attempt(
                self@.waits[waiter.id()].shot,
                true,
            ) is Ready),
    {
        broadcast use Waits::lemma_wf;

        self.waits.is_decided(waiter)
    }

    /// Take the reply to a request for a resource.
    pub fn receive(&mut self, waiter: &Waiter) -> (r: Result<Resolve<T>, Canceled>)
        requires
            old(self).wf(),
            0 <= waiter.id() < old(self)@.waits.len(),
            !old(self)@.waits[waiter.id()].open,
        ensures
            final(self).wf(),
            extends(old(self)@, final(self)@),
            Attempt::Ready(r) == attempt(old(self)@.waits[waiter.id()].shot, true),
            r is Ok ==> resolve_known(final(self)@.queue.cells, r->Ok_0),
            forall|waker: W|
                final(self)@ == #[trigger] after_look(old(self)@, waiter.id(), waker),
    {
        assert(reply_known(self@.queue.cells, self@.waits[waiter.id()]));
        let ghost replied = self@.waits[waiter.id()];
        let reply: Result<Resolve<T>, Canceled> = self.waits.receive(waiter);
        proof {
            assert forall|waker: W| self@ == #[trigger] after_look(old(self)@, waiter.id(), waker) by {
                let after = after_poll_wait(replied, waker);
            }
            self.lemma_received(old(self)@, waiter.id());
        }
        reply
    }

    proof fn lemma_received(&self, p: PoolView<T, W>, id: int)
        requires
            pool_inv(p),
            0 <= id < p.waits.len(),
            !p.waits[id].open,
            self.parts_wf(),
            forall|waker: W| self@ == #[trigger] after_look(p, id, waker),
        ensures
            pool_inv(self@),
            extends(p, self@),
    {
        let waker: W = arbitrary();
        assert(self@ == after_look(p, id, waker));
        lemma_inv_waits(p, self@);
    }

    /// Stop waiting for a resource. Returns it if it is there.
    pub fn drop_wait(&mut self, waiter: Waiter) -> (r: Option<Resolve<T>>)
        requires
            old(self).wf(),
            0 <= waiter.id() < old(self)@.waits.len(),
            attended(old(self)@.waits[waiter.id()]),
        ensures
            final(self).wf(),
            r == taken_by_cancel(old(self)@.waits[waiter.id()].shot),
            r is Some ==> resolve_known(final(self)@.queue.cells, r->0),
            final(self)@ == (PoolView {
                waits: old(self)@.waits.update(
                    waiter.id(),
                    after_leave(old(self)@.waits[waiter.id()]),
                ),
                ..old(self)@
            }),
    {
        assert(reply_known(self@.queue.cells, self@.waits[waiter.id()]));
        let reply: Option<Resolve<T>> = self.waits.drop_waiter(waiter);
        proof {
            lemma_inv_waits(old(self)@, self@);
        }
        reply
    }

    /// Count one more handle to the pool.
    pub fn add_handle(&mut self)
        requires
            old(self).wf(),
            old(self)@.handles < usize::MAX,
        ensures
            final(self).wf(),
            extends(old(self)@, final(self)@),
            final(self)@ == (PoolView {
                handles: (old(self)@.handles + 1) as usize,
                ..old(self)@
            }),
    {
        self.handles = self.handles + 1;
        proof {
            lemma_inv_waits(old(self)@, self@);
        }
    }

    /// Count one handle less. When the last one is gone, the pool is no longer in
    /// use.
    pub fn drop_handle(&mut self)
        requires
            old(self).wf(),
            old(self)@.handles > 0,
        ensures
            final(self).wf(),
            extends(old(self)@, final(self)@),
            final(self)@ == after_drop_handle(old(self)@),
    {
        self.handles = self.handles - 1;
        proof {
            lemma_inv_waits(old(self)@, self@);
        }
        if self.handles == 0 {
            let _ = self.shutdown();
        }
    }
}

} // verus!
