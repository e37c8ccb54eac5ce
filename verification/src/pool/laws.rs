//! What can be relied on.

use vstd::prelude::*;

use crate::dropshot::{attempt, Attempt, Canceled};
use crate::pool::acquire::{
    after_reject, from_guard, from_init, from_waiting, progress, AcquireView, Answer,
};
use crate::pool::model::{
    after_cancel_wait, after_check, after_create, after_dismiss, after_drain_timeout,
    after_drop_handle, after_events, after_evict, after_evictions, after_idle, after_inbox,
    after_last_timers, after_manager_detach, after_news, after_note, after_requests, after_round,
    after_serve, after_spawn, after_stop, after_try_create, after_try_wait, after_waiter,
    can_create, created_guard, created_info, detached, expiry, idle_offer, idle_resource,
    is_drained, lemma_after_idle, lemma_live_idle, may_wait, pool_inv, rest_after, round, served,
    timer_expires, timer_known, timers_expire, try_created, waiters_served, with_mgr, with_shared,
    Access, ManagerView, PoolView, Register, Resolve, Rest, Timer,
};
use crate::resource::info::ResourceInfo;
use crate::resource::lock::{
    after_unlock, held, known, ready, vacant, Cell, GuardView, ResourceGuard, ResourceLock,
};
use crate::resource::operation::{Operation, ResourceResolve, Work};
use crate::resource::repo::{guarding, with_lock};
use crate::shared::{
    after_acquire, after_dispose, after_keep, after_return, guard_at, hook_says, later, live_idle,
    may_keep, next_idle, released, returned, shared_inv, SharedEvent, SharedView,
};
use crate::timers::{expired, law_split, remaining, TimerEntry};
use crate::wait::{after_reply, arrives, wait_inv, WaitResponder};

verus! {

broadcast use {
    ResourceLock::lemma_at,
    ResourceLock::lemma_same,
    ResourceGuard::lemma_of,
    ResourceGuard::lemma_view,
};

/// A guard as it is when its resource was kept.
pub open spec fn kept<T>(s: SharedView<T>, guard: Access<T>, now: u128) -> Access<T> {
    GuardView {
        info: ResourceInfo { verify_at: later(now, s.idle_timeout), ..guard.info },
        ..guard
    }
}

/// What is handed out next after a resource was put behind the others.
pub proof fn lemma_live_push<I, T>(
    idle: Seq<ResourceLock>,
    cells: Seq<Cell<I, T>>,
    guard: GuardView<I, T>,
)
    requires
        known(cells, guard.lock),
        guard.value is Some,
        forall|i: int| 0 <= i < idle.len() ==> known(cells, #[trigger] idle[i]),
    ensures
        ({
            let after = after_unlock(cells, guard);
            let live = live_idle(idle.push(guard.lock), after);
            let before = live_idle(idle, cells);
            &&& live.len() > 0
            &&& if before.len() == 0 || before[0] == guard.lock {
                live[0] == guard.lock
            } else {
                live[0] == before[0] || live[0] == guard.lock
            }
            &&& before.len() > 0 && (forall|i: int|
                0 <= i < idle.len() ==> #[trigger] idle[i] != guard.lock) ==> live[0] == before[0]
        }),
    decreases idle.len(),
{
    let after = after_unlock(cells, guard);
    let longer = idle.push(guard.lock);
    assert(ready(after, guard.lock));
    if idle.len() > 0 {
        let first = idle[0];
        assert(longer[0] == first);
        if first == guard.lock {
            assert(ready(after, first));
        } else {
            assert(after[first.id()] == cells[first.id()]);
            if !ready(cells, first) {
                assert(longer.drop_first() =~= idle.drop_first().push(guard.lock));
                assert forall|i: int| 0 <= i < idle.drop_first().len() implies known(
                    cells,
                    #[trigger] idle.drop_first()[i],
                ) by {
                    assert(known(cells, idle[i + 1]));
                }
                lemma_live_push(idle.drop_first(), cells, guard);
                if forall|i: int| 0 <= i < idle.len() ==> #[trigger] idle[i] != guard.lock {
                    assert forall|i: int| 0 <= i < idle.drop_first().len() implies #[trigger]
                        idle.drop_first()[i] != guard.lock by {
                        assert(idle[i + 1] != guard.lock);
                    }
                }
            }
        }
    } else {
        assert(longer[0] == guard.lock);
    }
}

/// A resource that was kept is the one that is handed out next, unless another was
/// returned before.
pub proof fn law_kept_is_handed_out<T>(s: SharedView<T>, guard: Access<T>, now: u128)
    requires
        shared_inv(s),
        known(s.cells, guard.lock),
        guard.value is Some,
        next_idle(s) is None,
    ensures
        next_idle(after_keep(s, guard, now)) == Some(kept(s, guard, now)),
{
    lemma_live_push(s.idle, s.cells, kept(s, guard, now));
}

/// What was returned first is handed out first.
pub proof fn law_first_returned_first_out<T>(s: SharedView<T>, guard: Access<T>, now: u128)
    requires
        shared_inv(s),
        held(s.cells, guard.lock),
        guard.value is Some,
        next_idle(s) is Some,
        forall|i: int| 0 <= i < s.idle.len() ==> #[trigger] s.idle[i] != guard.lock,
    ensures
        next_idle(after_keep(s, guard, now)) == next_idle(s),
{
    lemma_live_push(s.idle, s.cells, kept(s, guard, now));
    lemma_live_idle(s.idle, s.cells);
    let live = live_idle(s.idle, s.cells);
    assert(live[0] == s.idle[s.idle.len() - live.len()]);
}

/// A resource that is returned is either kept, and found behind its lock, or
/// disposed of, and handed to whoever wants to see it. Never both, and never
/// neither.
pub proof fn law_returned_is_kept_or_disposed<T>(
    s: SharedView<T>,
    guard: Access<T>,
    is_kept: bool,
    now: u128,
)
    requires
        known(s.cells, guard.lock),
        guard.value is Some,
    ensures
        ({
            let after = after_return(s, guard, is_kept, now);
            &&& is_kept ==> ready(after.cells, guard.lock) && guard_at(after.cells, guard.lock)
                == kept(s, guard, now) && after.idle.last() == guard.lock && after.disposed
                == s.disposed && after.count == s.count
            &&& !is_kept ==> vacant(after.cells, guard.lock) && after.disposed == s.disposed.push(
                (guard.value->0, guard.info),
            ) && after.idle == s.idle && after.count == s.count.wrapping_sub(1)
        }),
{
}

/// Without an idle timeout, and while nobody waits, a resource that was created by
/// the pool and is not needed to keep the minimum is disposed of as soon as it is
/// returned.
pub proof fn law_disposed_at_once<T, R: Fn(T, ResourceInfo) -> (T, bool)>(
    s: SharedView<T>,
    hook: Option<R>,
    guard: Access<T>,
    now: u128,
    post: SharedView<T>,
)
    requires
        s.waiter_count == 0,
        s.min_count == 0 || s.count > s.min_count,
        !guard.info.reusable,
        released(s, hook, guard, now, post),
    ensures
        post == after_dispose(s, returned(guard, now)),
        s.idle_timeout is None ==> !created_info(s, now).reusable,
{
}

/// A resource that has expired is not kept, whatever a hook says.
pub proof fn law_expired_is_disposed<T, R: Fn(T, ResourceInfo) -> (T, bool)>(
    s: SharedView<T>,
    hook: Option<R>,
    guard: Access<T>,
    now: u128,
    post: SharedView<T>,
)
    requires
        guard.info.expired,
        released(s, hook, guard, now, post),
    ensures
        post == after_dispose(s, returned(guard, now)),
{
}

/// There are never more resources created than there may be. A resource is created
/// unless there are as many as there may be, and then exactly one.
pub proof fn law_max_count<T>(s: SharedView<T>, now: u128)
    requires
        s.max_count > 0 ==> s.count <= s.max_count,
        s.count < usize::MAX,
    ensures
        s.max_count > 0 ==> after_try_create(s).count <= s.max_count,
        try_created(s, now) == ResourceResolve::<ResourceInfo, T>::Resource(None)
            <==> s.max_count > 0 && s.count == s.max_count,
        s.max_count > 0 && s.count == s.max_count ==> after_try_create(s) == s,
        !(s.max_count > 0 && s.count == s.max_count) ==> {
            &&& after_try_create(s).count == s.count + 1
            &&& after_try_create(s).cells == s.cells.push(Cell::Held)
            &&& try_created(s, now) == ResourceResolve::Future(
                Operation { work: Work::Create, guard: ResourceGuard::of(created_guard(s, now)) },
            )
        },
{
}

/// There are never more waiters than there may be.
pub proof fn law_max_waiters<T, W>(p: PoolView<T, W>, started: u128)
    requires
        p.shared.max_waiters is Some,
        p.shared.waiter_count <= p.shared.max_waiters->0,
        p.shared.waiter_count < usize::MAX,
    ensures
        after_try_wait(p, started).shared.waiter_count <= p.shared.max_waiters->0,
        p.shared.waiter_count == p.shared.max_waiters->0 ==> after_try_wait(p, started) == p,
{
}

/// Nobody who comes later gets a resource that was returned while others wait.
pub proof fn law_waiters_come_first<T>(s: SharedView<T>, verify: bool, now: u128)
    requires
        s.waiter_count > 0,
    ensures
        idle_resource(s, verify, now) == ResourceResolve::<ResourceInfo, T>::Resource(None),
        after_idle(s, verify, now) == s,
{
}

proof fn lemma_served_decided<T, W>(p: PoolView<T, W>, spare: Option<Access<T>>, id: int)
    requires
        0 <= id < p.waits.len(),
        !p.waits[id].open,
        forall|i: int|
            0 <= i < p.mgr.waiters.len() ==> 0 <= (#[trigger] p.mgr.waiters[i]).id()
                < p.waits.len(),
    ensures
        served(p, spare).0.waits.len() == p.waits.len(),
        served(p, spare).0.waits[id] == p.waits[id],
    decreases p.mgr.waiters.len(),
{
    if p.mgr.waiters.len() > 0 {
        let to = p.mgr.waiters[0];
        assert forall|q: PoolView<T, W>|
            q.mgr.waiters == p.mgr.waiters && q.waits.len() == p.waits.len() implies forall|i: int|
            0 <= i < (#[trigger] after_waiter(q)).mgr.waiters.len() ==> 0 <= (
            #[trigger] after_waiter(q).mgr.waiters[i]).id() < q.waits.len() by {
            assert forall|i: int| 0 <= i < after_waiter(q).mgr.waiters.len() implies 0 <= (
            #[trigger] after_waiter(q).mgr.waiters[i]).id() < q.waits.len() by {
                assert(after_waiter(q).mgr.waiters[i] == p.mgr.waiters[i + 1]);
            }
        }
        if !p.waits[to.id()].open {
            lemma_served_decided(after_waiter(p), spare, id);
        } else if spare is Some {
            lemma_served_decided(
                after_waiter(after_serve(p, to, spare->0)),
                if arrives(p.waits[to.id()]) {
                    None
                } else {
                    spare
                },
                id,
            );
        } else if next_idle(p.shared) is Some {
            let q = with_shared(p, after_acquire(p.shared));
            lemma_served_decided(
                after_waiter(after_serve(q, to, next_idle(p.shared)->0)),
                if arrives(p.waits[to.id()]) {
                    None
                } else {
                    next_idle(p.shared)
                },
                id,
            );
        }
    }
}

/// The resource that was returned first goes to the one who waits longest.
pub proof fn law_longest_wait_is_served_first<T, W>(p: PoolView<T, W>)
    requires
        pool_inv(p),
        p.mgr.waiters.len() > 0,
        wait_inv(p.waits[p.mgr.waiters[0].id()]),
        arrives(p.waits[p.mgr.waiters[0].id()]),
        next_idle(p.shared) is Some,
    ensures
        attempt(served(p, None).0.waits[p.mgr.waiters[0].id()].shot, true) == Attempt::<
            Resolve<T>,
        >::Ready(
            Ok(ResourceResolve::Resource(Some(ResourceGuard::of(next_idle(p.shared)->0)))),
        ),
{
    let to = p.mgr.waiters[0];
    let guard = next_idle(p.shared)->0;
    let q = after_waiter(after_serve(with_shared(p, after_acquire(p.shared)), to, guard));
    assert forall|i: int| 0 <= i < q.mgr.waiters.len() implies 0 <= (
    #[trigger] q.mgr.waiters[i]).id() < q.waits.len() by {
        assert(q.mgr.waiters[i] == p.mgr.waiters[i + 1]);
    }
    lemma_served_decided(q, None, to.id());
}

/// What disposing of all resources that are not in use does to locks.
pub proof fn lemma_evictions<T>(s: SharedView<T>, locks: Seq<ResourceLock>)
    requires
        forall|i: int| 0 <= i < locks.len() ==> known(s.cells, #[trigger] locks[i]),
    ensures
        ({
            let after = after_evictions(s, locks);
            &&& after.cells.len() == s.cells.len()
            &&& forall|lock: ResourceLock|
                known(s.cells, lock) && held(s.cells, lock) ==> #[trigger] held(after.cells, lock)
            &&& forall|lock: ResourceLock|
                known(s.cells, lock) && vacant(s.cells, lock) ==> #[trigger] vacant(
                    after.cells,
                    lock,
                )
            &&& forall|i: int|
                0 <= i < locks.len() && !held(s.cells, locks[i]) ==> vacant(
                    after.cells,
                    #[trigger] locks[i],
                )
            &&& forall|lock: ResourceLock|
                known(s.cells, lock) && #[trigger] held(after.cells, lock) ==> held(s.cells, lock)
        }),
    decreases locks.len(),
{
    if locks.len() > 0 {
        let rest = locks.drop_last();
        assert forall|i: int| 0 <= i < rest.len() implies known(s.cells, #[trigger] rest[i]) by {
            assert(rest[i] == locks[i]);
        }
        lemma_evictions(s, rest);
        let mid = after_evictions(s, rest);
        let after = after_evict(mid, locks.last());
        assert(known(s.cells, locks[locks.len() - 1]));
        assert forall|lock: ResourceLock| known(s.cells, lock) implies {
            &&& held(s.cells, lock) ==> #[trigger] held(after.cells, lock)
            &&& held(after.cells, lock) ==> held(s.cells, lock)
        } by {
            assert(held(s.cells, lock) ==> held(mid.cells, lock));
            assert(held(mid.cells, lock) ==> held(s.cells, lock));
            if lock != locks.last() {
                assert(after.cells[lock.id()] == mid.cells[lock.id()]);
            }
        }
        assert forall|lock: ResourceLock|
            known(s.cells, lock) && vacant(s.cells, lock) implies #[trigger] vacant(
            after.cells,
            lock,
        ) by {
            assert(vacant(mid.cells, lock));
            if lock != locks.last() {
                assert(after.cells[lock.id()] == mid.cells[lock.id()]);
            }
        }
        assert forall|i: int|
            0 <= i < locks.len() && !held(s.cells, locks[i]) implies vacant(
            after.cells,
            #[trigger] locks[i],
        ) by {
            assert(held(mid.cells, locks[i]) ==> held(s.cells, locks[i]));
            if i < rest.len() {
                assert(rest[i] == locks[i]);
                assert(vacant(mid.cells, rest[i]));
            }
            if locks[i] != locks.last() {
                assert(after.cells[locks[i].id()] == mid.cells[locks[i].id()]);
            }
        }
    }
}

/// A pool that is being emptied is empty as soon as no resource is in use and
/// nobody else has a handle.
pub proof fn law_drained_when_unused<T, W>(p: PoolView<T, W>)
    requires
        pool_inv(p),
        p.state is Drain,
        p.handles <= 1,
        forall|i: int| 0 <= i < p.mgr.repo.len() ==> !held(p.shared.cells, #[trigger] p.mgr.repo[i]),
    ensures
        is_drained(after_check(p)),
{
    lemma_evictions(p.shared, p.mgr.repo);
    let cells = after_evictions(p.shared, p.mgr.repo).cells;
    assert forall|i: int| 0 <= i < p.mgr.repo.len() implies !(guarding(cells))(
        #[trigger] p.mgr.repo[i],
    ) by {
        assert(!held(p.shared.cells, p.mgr.repo[i]));
        assert(vacant(cells, p.mgr.repo[i]));
    }
    p.mgr.repo.lemma_all_neg_filter_empty(guarding(cells));
}

/// A pool is not empty as long as a resource is in use.
pub proof fn law_not_drained_while_used<T, W>(p: PoolView<T, W>, i: int)
    requires
        pool_inv(p),
        0 <= i < p.mgr.repo.len(),
        held(p.shared.cells, p.mgr.repo[i]),
    ensures
        !is_drained(after_check(p)),
{
    if p.state is Drain {
        lemma_evictions(p.shared, p.mgr.repo);
        let cells = after_evictions(p.shared, p.mgr.repo).cells;
        assert(held(cells, p.mgr.repo[i]));
        assert((guarding(cells))(p.mgr.repo[i]));
        p.mgr.repo.lemma_filter_contains(guarding(cells), i);
    }
}

proof fn lemma_last_timers<T, W>(p: PoolView<T, W>, timers: Seq<TimerEntry<Timer>>, id: int)
    requires
        0 <= id < p.drains.len(),
        forall|i: int|
            0 <= i < timers.len() ==> timer_known(p, (#[trigger] timers[i]).2),
    ensures
        after_last_timers(p, timers).drains.len() == p.drains.len(),
        after_last_timers(p, timers).waits.len() == p.waits.len(),
        !p.drains[id].open ==> after_last_timers(p, timers).drains[id] == p.drains[id],
        p.drains[id].open ==> after_last_timers(p, timers).drains[id] == p.drains[id]
            || after_last_timers(p, timers).drains[id] == after_reply(p.drains[id], true),
        p.drains[id].open && (exists|i: int|
            0 <= i < timers.len() && (#[trigger] timers[i]).2 is Drain
                && timers[i].2->Drain_0.id() == id) ==> after_last_timers(p, timers).drains[id]
            == after_reply(p.drains[id], true),
    decreases timers.len(),
{
    if timers.len() > 0 {
        let rest = timers.drop_last();
        assert forall|i: int| 0 <= i < rest.len() implies timer_known(
            p,
            (#[trigger] rest[i]).2,
        ) by {
            assert(rest[i] == timers[i]);
        }
        lemma_last_timers(p, rest, id);
        let mid = after_last_timers(p, rest);
        assert(timer_known(p, timers[timers.len() - 1].2));
        if p.drains[id].open {
            if exists|i: int|
                0 <= i < timers.len() && (#[trigger] timers[i]).2 is Drain
                    && timers[i].2->Drain_0.id() == id {
                let i = choose|i: int|
                    0 <= i < timers.len() && (#[trigger] timers[i]).2 is Drain
                        && timers[i].2->Drain_0.id() == id;
                if i < rest.len() {
                    assert(rest[i] == timers[i]);
                }
            }
        }
    }
}

proof fn lemma_dismiss<T, W>(p: PoolView<T, W>, waiters: Seq<WaitResponder>)
    ensures
        after_dismiss(p, waiters).drains == p.drains,
    decreases waiters.len(),
{
    if waiters.len() > 0 {
        lemma_dismiss(p, waiters.drop_last());
    }
}

/// A pool is not empty as long as somebody else has a handle to it: the manager does
/// not stop, and whoever had the pool emptied is not told that it is.
pub proof fn law_not_drained_while_cloned<T, W>(p: PoolView<T, W>)
    requires
        p.handles > 1,
    ensures
        !is_drained(after_check(p)),
        rest_after(p) is Wait,
        after_round(p).state == p.state,
        after_round(p).drains == p.drains,
{
}

/// Whoever waits for the pool to be empty is not kept waiting by a handle that is
/// given up: the manager is told to look again.
pub proof fn law_manager_learns_of_handles<T, W>(p: PoolView<T, W>)
    requires
        p.handles > 1,
        p.state is Drain,
    ensures
        after_drop_handle(p).shared.notified,
        after_drop_handle(p).handles == p.handles - 1,
        after_drop_handle(p).state is Drain,
{
}

/// When there is no resource left and nobody else has a handle, the manager stops,
/// and whoever had the pool emptied learns that it is.
pub proof fn law_drain_is_confirmed<T, W>(p: PoolView<T, W>, i: int)
    requires
        pool_inv(p),
        p.state is Drain,
        p.handles <= 1,
        after_check(p).mgr.repo.len() == 0,
        0 <= i < p.mgr.timers.len(),
        p.mgr.timers[i].2 is Drain,
        wait_inv(p.drains[p.mgr.timers[i].2->Drain_0.id()]),
        arrives(p.drains[p.mgr.timers[i].2->Drain_0.id()]),
    ensures
        attempt(
            after_round(p).drains[p.mgr.timers[i].2->Drain_0.id()].shot,
            true,
        ) == Attempt::<bool>::Ready(Ok(true)),
        after_round(p).state is Stopped,
        rest_after(p) is Stop,
{
    let id = p.mgr.timers[i].2->Drain_0.id();
    let q = after_check(p);
    assert(timer_known(p, p.mgr.timers[i].2));
    lemma_evictions(p.shared, p.mgr.repo);
    assert forall|j: int| 0 <= j < q.mgr.timers.len() implies timer_known(
        q,
        (#[trigger] q.mgr.timers[j]).2,
    ) by {
        assert(timer_known(p, p.mgr.timers[j].2));
    }
    lemma_last_timers(q, q.mgr.timers, id);
    lemma_dismiss(after_last_timers(q, q.mgr.timers), q.mgr.waiters);
}

/// When the time to empty the pool is over, whoever asked for it learns that it is
/// not empty. The pool is in use again once nobody else has it emptied.
pub proof fn law_drain_times_out<T, W>(p: PoolView<T, W>, to: WaitResponder)
    requires
        0 <= to.id() < p.drains.len(),
        wait_inv(p.drains[to.id()]),
        p.drains[to.id()].open,
        p.mgr.drain_count > 0,
    ensures
        attempt(after_drain_timeout(p, to).drains[to.id()].shot, true) == Attempt::<bool>::Ready(
            Err(Canceled),
        ),
        p.mgr.drain_count == 1 && p.state is Drain ==> after_drain_timeout(p, to).state is Active,
        p.mgr.drain_count > 1 ==> after_drain_timeout(p, to).state == p.state,
{
}

/// Somebody whose wait was called off learns that no resource came in time.
pub proof fn law_wait_times_out<T, W>(
    p: PoolView<T, W>,
    to: WaitResponder,
    start: u128,
    now: u128,
    waker: W,
)
    requires
        0 <= to.id() < p.waits.len(),
        wait_inv(p.waits[to.id()]),
        p.waits[to.id()].open,
    ensures
        from_waiting(after_cancel_wait(p, to), to.id(), start, now, waker).answer
            is Timeout,
{
}

/// Somebody for whom a resource is being created or verified learns when that takes
/// too long, at the first look after the time is over. The work goes on in the
/// background.
pub proof fn law_work_times_out<T, W>(
    p: PoolView<T, W>,
    operation: Operation<ResourceInfo, T>,
    start: u128,
    now: u128,
    waker: W,
)
    ensures
        ({
            let state = Some(AcquireView::Resolve(ResourceResolve::Future(operation)));
            let next = progress(p, state, start, now, waker);
            &&& next.answer is Timeout <==> p.acquire_timeout is Some && later(
                start,
                p.acquire_timeout,
            )->0 < now
            &&& next.answer is Timeout ==> next.pool == after_spawn(p, operation) && next.state
                is None
            &&& !(next.answer is Timeout) ==> next.answer is Evaluate && next.pool == p
                && next.state == state
        }),
{
}

/// The manager is never told to wait past the time of a timer.
pub proof fn law_no_timer_is_missed<T, W>(p: PoolView<T, W>, i: int)
    requires
        pool_inv(p),
        0 <= i < p.mgr.timers.len(),
        !is_drained(after_check(p)),
    ensures
        rest_after(p) matches Rest::Wait(Some(at)) && at <= p.mgr.timers[i].0,
{
}

/// The manager does not forget a lock because of news.
pub proof fn lemma_events_keep(m: ManagerView, events: Seq<SharedEvent>, lock: ResourceLock)
    ensures
        m.repo.contains(lock) ==> after_events(m, events).repo.contains(lock),
        (exists|i: int| 0 <= i < events.len() && #[trigger] events[i] == SharedEvent::Created(lock))
            ==> after_events(m, events).repo.contains(lock),
    decreases events.len(),
{
    if events.len() > 0 {
        let rest = events.drop_last();
        lemma_events_keep(m, rest, lock);
        let mid = after_events(m, rest);
        let last = events.last();
        if mid.repo.contains(lock) {
            if last is Created {
                let j = choose|j: int| 0 <= j < mid.repo.len() && mid.repo[j] == lock;
                assert(with_lock(mid.repo, last->Created_0)[j] == lock);
            }
        }
        if exists|i: int| 0 <= i < events.len() && #[trigger] events[i] == SharedEvent::Created(
            lock,
        ) {
            let i = choose|i: int|
                0 <= i < events.len() && #[trigger] events[i] == SharedEvent::Created(lock);
            if i < rest.len() {
                assert(rest[i] == SharedEvent::Created(lock));
            } else if !mid.repo.contains(lock) {
                assert(mid.repo.push(lock)[mid.repo.len() as int] == lock);
            }
        }
    }
}

/// The manager learns of every resource whose creation was started.
pub proof fn law_manager_learns_of_resources<T, W>(p: PoolView<T, W>, now: u128)
    requires
        p.shared.cells.len() < usize::MAX,
    ensures
        after_news(with_shared(p, after_create(p.shared))).mgr.repo.contains(
            created_guard(p.shared, now).lock,
        ),
{
    let lock = created_guard(p.shared, now).lock;
    let events = after_create(p.shared).events;
    assert(events[events.len() - 1] == SharedEvent::Created(lock));
    lemma_events_keep(p.mgr, events, lock);
}

proof fn lemma_from_init<T, W>(p: PoolView<T, W>, start: u128, now: u128, waker: W)
    ensures
        ({
            let next = from_init(p, start, now, waker);
            &&& next.answer matches Answer::Granted(guard) ==> !guard.info.expired && guard.value
                is Some
            &&& next.answer is Busy ==> !may_wait(next.pool.shared) && !can_create(
                next.pool.shared,
            )
            &&& !(next.answer is Closed) && !(next.answer is Timeout)
        }),
    decreases p.shared.idle.len(),
{
    lemma_after_idle(p.shared, p.verify, now);
    let found = idle_resource(p.shared, p.verify, now);
    let q = with_shared(p, after_idle(p.shared, p.verify, now));
    let offer = idle_offer(p.shared, p.verify, now);
    lemma_live_idle(offer.idle, offer.cells);
    match found {
        ResourceResolve::Resource(Some(guard)) => {
            if guard@.info.expired {
                lemma_from_init(after_reject(q, guard@, now), start, now, waker);
            }
        },
        _ => {},
    }
}

/// Whoever is granted a resource gets one that is there and has not expired.
pub proof fn law_granted_is_good<T, W>(
    p: PoolView<T, W>,
    guard: Access<T>,
    start: u128,
    now: u128,
    waker: W,
)
    requires
        guard.value is Some,
    ensures
        from_guard(p, guard, start, now, waker).answer matches Answer::Granted(granted)
            ==> !granted.info.expired && granted.value is Some,
        from_init(p, start, now, waker).answer matches Answer::Granted(granted)
            ==> !granted.info.expired && granted.value is Some,
{
    lemma_from_init(p, start, now, waker);
    lemma_from_init(after_reject(p, guard, now), start, now, waker);
}

/// A request is refused only if no resource may be created and too many wait.
pub proof fn law_refused_only_when_busy<T, W>(p: PoolView<T, W>, start: u128, now: u128, waker: W)
    ensures
        from_init(p, start, now, waker).answer is Busy ==> {
            let s = from_init(p, start, now, waker).pool.shared;
            &&& s.max_count > 0 && s.count >= s.max_count
            &&& s.max_waiters is Some && s.waiter_count >= s.max_waiters->0
        },
{
    lemma_from_init(p, start, now, waker);
}

proof fn lemma_release_leaves<T, R: Fn(T, ResourceInfo) -> (T, bool)>(
    s: SharedView<T>,
    hook: Option<R>,
    guard: Access<T>,
    now: u128,
    post: SharedView<T>,
    lock: ResourceLock,
)
    requires
        released(s, hook, guard, now, post),
        held(s.cells, lock),
        known(s.cells, guard.lock),
        guard.lock != lock,
    ensures
        held(post.cells, lock),
        post.cells.len() == s.cells.len(),
{
    let back = returned(guard, now);
    if may_keep(s, back) {
        let result = choose|result: (T, bool)| #[trigger]
            hook_says(hook, back.value->0, back.info, result) && post == after_return(
                s,
                GuardView { value: Some(result.0), ..back },
                result.1,
                now,
            );
        assert(post == after_return(
            s,
            GuardView { value: Some(result.0), ..back },
            result.1,
            now,
        ));
    }
}

proof fn lemma_timer_leaves<T, W, R: Fn(T, ResourceInfo) -> (T, bool)>(
    p: PoolView<T, W>,
    hook: Option<R>,
    entry: TimerEntry<Timer>,
    now: u128,
    post: PoolView<T, W>,
    lock: ResourceLock,
    first: int,
)
    requires
        timer_expires(p, hook, entry, now, post),
        held(p.shared.cells, lock),
        entry.2 is Verify ==> 0 <= entry.2->Verify_0.id() < first,
        first <= p.shared.cells.len(),
        p.shared.cells.len() < usize::MAX,
    ensures
        held(post.shared.cells, lock),
        p.shared.cells.len() <= post.shared.cells.len() <= p.shared.cells.len() + 1,
{
    if entry.2 is Verify {
        let about = entry.2->Verify_0;
        if ready(p.shared.cells, about) {
            let guard = detached(p.shared, about);
            let moved = after_manager_detach(p, about);
            assert(moved.shared.cells[lock.id()] == p.shared.cells[lock.id()]);
            if guard.info.verify_at != Some(entry.0) {
                let noted = with_mgr(moved, after_note(moved.mgr, guard.lock));
                lemma_release_leaves(noted.shared, hook, guard, now, post.shared, lock);
            }
        }
    }
}

/// Timers leave a resource that is in use alone.
pub proof fn lemma_timers_leave<T, W, R: Fn(T, ResourceInfo) -> (T, bool)>(
    p: PoolView<T, W>,
    hook: Option<R>,
    entries: Seq<TimerEntry<Timer>>,
    now: u128,
    post: PoolView<T, W>,
    lock: ResourceLock,
)
    requires
        timers_expire(p, hook, entries, now, post),
        held(p.shared.cells, lock),
        forall|i: int| 0 <= i < entries.len() ==> timer_known(p, (#[trigger] entries[i]).2),
        p.shared.cells.len() + entries.len() <= usize::MAX,
    ensures
        held(post.shared.cells, lock),
        p.shared.cells.len() <= post.shared.cells.len() <= p.shared.cells.len() + entries.len(),
    decreases entries.len(),
{
    if entries.len() > 0 {
        let rest = entries.drop_last();
        let mid = choose|mid: PoolView<T, W>|
            timers_expire(p, hook, rest, now, mid) && #[trigger] timer_expires(
                mid,
                hook,
                entries.last(),
                now,
                post,
            );
        assert forall|i: int| 0 <= i < rest.len() implies timer_known(
            p,
            (#[trigger] rest[i]).2,
        ) by {
            assert(rest[i] == entries[i]);
        }
        lemma_timers_leave(p, hook, rest, now, mid, lock);
        assert(timer_known(p, entries[entries.len() - 1].2));
        lemma_timer_leaves(
            mid,
            hook,
            entries.last(),
            now,
            post,
            lock,
            p.shared.cells.len() as int,
        );
    }
}

proof fn lemma_requests_leave<T, W>(p: PoolView<T, W>, registers: Seq<Register>)
    ensures
        after_requests(p, registers).shared.cells == p.shared.cells,
    decreases registers.len(),
{
    if registers.len() > 0 {
        lemma_requests_leave(p, registers.drop_last());
    }
}

proof fn lemma_served_leaves<T, W>(p: PoolView<T, W>, spare: Option<Access<T>>, lock: ResourceLock)
    requires
        held(p.shared.cells, lock),
        shared_inv(p.shared),
        spare is Some ==> known(p.shared.cells, spare->0.lock) && spare->0.lock != lock,
    ensures
        held(served(p, spare).0.shared.cells, lock),
        served(p, spare).1 is Some ==> served(p, spare).1->0.lock != lock && known(
            served(p, spare).0.shared.cells,
            served(p, spare).1->0.lock,
        ),
    decreases p.mgr.waiters.len(),
{
    if p.mgr.waiters.len() > 0 {
        let to = p.mgr.waiters[0];
        if !p.waits[to.id()].open {
            lemma_served_leaves(after_waiter(p), spare, lock);
        } else if spare is Some {
            lemma_served_leaves(
                after_waiter(after_serve(p, to, spare->0)),
                if arrives(p.waits[to.id()]) {
                    None
                } else {
                    spare
                },
                lock,
            );
        } else {
            let live = live_idle(p.shared.idle, p.shared.cells);
            let after = after_acquire(p.shared);
            lemma_live_idle(p.shared.idle, p.shared.cells);
            assert forall|i: int| 0 <= i < live.len() implies known(
                p.shared.cells,
                #[trigger] live[i],
            ) by {
                assert(live[i] == p.shared.idle[i + p.shared.idle.len() - live.len()]);
            }
            if next_idle(p.shared) is Some {
                assert(live[0] != lock);
                assert(shared_inv(after));
                let q = with_shared(p, after);
                lemma_served_leaves(
                    after_waiter(after_serve(q, to, next_idle(p.shared)->0)),
                    if arrives(p.waits[to.id()]) {
                        None
                    } else {
                        next_idle(p.shared)
                    },
                    lock,
                );
            }
        }
    }
}

/// Nothing that is shared changes when the manager stops.
pub proof fn lemma_stop_leaves<T, W>(p: PoolView<T, W>)
    ensures
        after_stop(p).shared == p.shared,
{
    lemma_last_timers_shared(p, p.mgr.timers);
    lemma_dismiss_shared(after_last_timers(p, p.mgr.timers), p.mgr.waiters);
}

proof fn lemma_last_timers_shared<T, W>(p: PoolView<T, W>, timers: Seq<TimerEntry<Timer>>)
    ensures
        after_last_timers(p, timers).shared == p.shared,
    decreases timers.len(),
{
    if timers.len() > 0 {
        lemma_last_timers_shared(p, timers.drop_last());
    }
}

proof fn lemma_dismiss_shared<T, W>(p: PoolView<T, W>, waiters: Seq<WaitResponder>)
    ensures
        after_dismiss(p, waiters).shared == p.shared,
    decreases waiters.len(),
{
    if waiters.len() > 0 {
        lemma_dismiss_shared(p, waiters.drop_last());
    }
}

/// The manager leaves a resource that is in use alone: nobody else gets hold of
/// it, and it is not disposed of.
pub proof fn law_used_is_left_alone<T, W, R: Fn(T, ResourceInfo) -> (T, bool)>(
    p: PoolView<T, W>,
    hook: Option<R>,
    now: u128,
    post: PoolView<T, W>,
    rest: Rest,
    lock: ResourceLock,
)
    requires
        pool_inv(p),
        held(p.shared.cells, lock),
        p.shared.cells.len() + p.mgr.timers.len() <= usize::MAX,
        round(p, hook, now, post, rest),
    ensures
        held(post.shared.cells, lock),
{
    let (on_time, after) = choose|on_time: PoolView<T, W>, after: PoolView<T, W>| #[trigger]
        expiry(p, hook, now, on_time) && #[trigger] waiters_served(
            after_inbox(after_news(on_time)),
            hook,
            now,
            after,
        ) && pool_inv(on_time) && pool_inv(after) && post == after_round(after) && rest
            == rest_after(after);
    let start = with_mgr(p, ManagerView { timers: remaining(p.mgr.timers, now), ..p.mgr });
    let entries = expired(p.mgr.timers, now);
    law_split(p.mgr.timers, now);
    assert forall|i: int| 0 <= i < entries.len() implies timer_known(
        start,
        (#[trigger] entries[i]).2,
    ) by {
        assert(entries[i] == p.mgr.timers[i]);
        assert(timer_known(p, p.mgr.timers[i].2));
    }
    lemma_timers_leave(start, hook, entries, now, on_time, lock);
    let told = after_inbox(after_news(on_time));
    let news = after_news(on_time);
    lemma_requests_leave(PoolView { registers: Seq::empty(), ..news }, news.registers);
    lemma_requests_shared(PoolView { registers: Seq::empty(), ..news }, news.registers);
    lemma_served_leaves(told, None, lock);
    if told.mgr.waiters.len() > 0 && (told.shared.idle.len() > 0 || can_create(told.shared)) {
        let (fed, spare) = served(told, None);
        if spare is Some {
            lemma_release_leaves(fed.shared, hook, spare->0, now, after.shared, lock);
        }
    }
    if after.state is Drain {
        lemma_evictions(after.shared, after.mgr.repo);
        assert(held(after_evictions(after.shared, after.mgr.repo).cells, lock));
    }
    lemma_stop_leaves(after_check(after));
}

proof fn lemma_requests_shared<T, W>(p: PoolView<T, W>, registers: Seq<Register>)
    requires
        shared_inv(p.shared),
    ensures
        shared_inv(after_requests(p, registers).shared),
    decreases registers.len(),
{
    if registers.len() > 0 {
        lemma_requests_shared(p, registers.drop_last());
    }
}

/// A pool is in use as long as there is a handle to it. A request is one.
pub proof fn law_in_use_while_requested<T, W>(p: PoolView<T, W>)
    requires
        0 < p.handles < usize::MAX,
    ensures
        ({
            let requested = PoolView { handles: (p.handles + 1) as usize, ..p };
            let after = after_drop_handle(requested);
            &&& after == with_shared(p, after.shared)
            &&& after.shared == (SharedView {
                notified: p.shared.notified || p.state is Drain,
                ..p.shared
            })
        }),
{
}

} // verus!
