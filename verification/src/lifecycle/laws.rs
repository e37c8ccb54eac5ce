//! What can be relied on in such a pool.

use vstd::prelude::*;

use crate::arp::model::{next_check, Timer};
use crate::dropshot::{attempt, Attempt, Canceled};
use crate::lifecycle::acquire::{from_init, Answer};
use crate::lifecycle::info::{borrowed_info, ResourceInfo};
use crate::lifecycle::model::{
    after_cancel_shutdown, after_cancel_wait, after_check, after_create, after_dismiss,
    after_drop_handle, after_evict, after_evictions, after_events, after_expiry, after_idle,
    after_inbox, after_last_timers, after_manager_detach, after_news, after_round, after_serve,
    after_shutdown, after_stop, after_timer, after_timers, after_try_create, after_verify,
    after_waiter, after_waiters, after_work, can_create, created_guard, idle_resource, is_emptied,
    pool_inv, rest_after, served, timer_known, try_created, with_mgr, with_queue, Access,
    ManagerView, PoolView, Resolve,
};
use crate::lifecycle::queue::{
    after_acquire, after_release, next_idle, queue_inv, returned, QueueEvent, QueueView,
};
use crate::pool::laws::lemma_live_push;
use crate::pool::model::{lemma_live_idle, Rest};
use crate::resource::lock::{
    allocated, held, known, lemma_allocated_push, lemma_allocated_update, ready, vacant, Cell,
    GuardView, ResourceGuard, ResourceLock,
};
use crate::resource::operation::{Operation, ResourceResolve, Work};
use crate::resource::repo::{guarding, with_lock};
use crate::shared::{guard_at, live_idle};
use crate::timers::{expired, law_split, remaining, TimerEntry};
use crate::wait::{after_reply, arrives, wait_inv, WaitResponder};

verus! {

broadcast use {
    ResourceLock::lemma_at,
    ResourceLock::lemma_same,
    ResourceGuard::lemma_of,
    ResourceGuard::lemma_view,
};

/// A guard as it is when its resource was handed out.
pub open spec fn handed_out<T>(guard: Access<T>, now: u128) -> Access<T> {
    GuardView { info: borrowed_info(guard.info, now), ..guard }
}

/// With an idle timeout, or while somebody waits, a resource that was returned is
/// the one that is handed out next, unless another was returned before.
pub proof fn law_kept_is_handed_out<T>(s: QueueView<T>, guard: Access<T>, now: u128, then: u128)
    requires
        queue_inv(s),
        known(s.cells, guard.lock),
        guard.value is Some,
        s.idle_timeout is Some || s.busy,
        next_idle(s, then) is None,
    ensures
        next_idle(after_release(s, guard, now), then) == Some(
            handed_out(returned(s, guard, now), then),
        ),
{
    lemma_live_push(s.idle, s.cells, returned(s, guard, now));
}

/// What was returned first is handed out first.
pub proof fn law_first_returned_first_out<T>(
    s: QueueView<T>,
    guard: Access<T>,
    now: u128,
    then: u128,
)
    requires
        queue_inv(s),
        held(s.cells, guard.lock),
        guard.value is Some,
        s.idle_timeout is Some || s.busy,
        next_idle(s, then) is Some,
        forall|i: int| 0 <= i < s.idle.len() ==> #[trigger] s.idle[i] != guard.lock,
    ensures
        next_idle(after_release(s, guard, now), then) == next_idle(s, then),
{
    lemma_live_push(s.idle, s.cells, returned(s, guard, now));
    lemma_live_idle(s.idle, s.cells);
    let live = live_idle(s.idle, s.cells);
    assert(live[0] == s.idle[s.idle.len() - live.len()]);
}

/// There are never more resources created than there may be.
pub proof fn law_max_count<T>(s: QueueView<T>, now: u128)
    requires
        s.max_count is Some,
        s.count <= s.max_count->0,
    ensures
        after_try_create(s).count <= s.max_count->0,
        s.count == s.max_count->0 ==> after_try_create(s) == s && try_created(s, now)
            == ResourceResolve::<ResourceInfo, T>::Resource(None),
        s.count < s.max_count->0 ==> after_try_create(s).count == s.count + 1,
{
}

/// Nobody who comes later gets a resource that was returned while others wait.
pub proof fn law_waiters_come_first<T>(s: QueueView<T>, now: u128)
    requires
        s.busy,
    ensures
        idle_resource(s, now) == ResourceResolve::<ResourceInfo, T>::Resource(None),
        after_idle(s) == s,
{
}

/// After the manager turned to those who wait, the pool is busy if and only if
/// somebody did.
pub proof fn law_busy_while_waited_for<T, W>(p: PoolView<T, W>, now: u128)
    ensures
        after_waiters(p, now).queue.busy == (p.mgr.waiters.len() > 0),
{
    let told = with_queue(p, QueueView { busy: p.mgr.waiters.len() > 0, ..p.queue });
    lemma_served_busy(told, now);
}

proof fn lemma_served_busy<T, W>(p: PoolView<T, W>, now: u128)
    ensures
        served(p, now).queue.busy == p.queue.busy,
    decreases p.mgr.waiters.len(),
{
    if p.mgr.waiters.len() > 0 {
        let to = p.mgr.waiters[0];
        if !arrives(p.waits[to.id()]) {
            lemma_served_busy(after_waiter(p), now);
        } else if next_idle(p.queue, now) is Some {
            let q = with_queue(p, after_acquire(p.queue));
            lemma_served_busy(after_waiter(after_serve(q, to, next_idle(p.queue, now)->0)), now);
        }
    }
}

proof fn lemma_served_decided<T, W>(p: PoolView<T, W>, now: u128, id: int)
    requires
        0 <= id < p.waits.len(),
        !p.waits[id].open,
        forall|i: int|
            0 <= i < p.mgr.waiters.len() ==> 0 <= (#[trigger] p.mgr.waiters[i]).id()
                < p.waits.len(),
    ensures
        served(p, now).waits.len() == p.waits.len(),
        served(p, now).waits[id] == p.waits[id],
    decreases p.mgr.waiters.len(),
{
    if p.mgr.waiters.len() > 0 {
        let to = p.mgr.waiters[0];
        let next = if !arrives(p.waits[to.id()]) {
            after_waiter(p)
        } else {
            let q = with_queue(p, after_acquire(p.queue));
            after_waiter(after_serve(q, to, next_idle(p.queue, now)->0))
        };
        assert forall|i: int| 0 <= i < next.mgr.waiters.len() implies 0 <= (
        #[trigger] next.mgr.waiters[i]).id() < p.waits.len() by {
            assert(next.mgr.waiters[i] == p.mgr.waiters[i + 1]);
        }
        if !arrives(p.waits[to.id()]) || next_idle(p.queue, now) is Some {
            lemma_served_decided(next, now, id);
        }
    }
}

/// The resource that was returned first goes to the one who waits longest.
pub proof fn law_longest_wait_is_served_first<T, W>(p: PoolView<T, W>, now: u128)
    requires
        pool_inv(p),
        p.mgr.waiters.len() > 0,
        wait_inv(p.waits[p.mgr.waiters[0].id()]),
        arrives(p.waits[p.mgr.waiters[0].id()]),
        next_idle(p.queue, now) is Some,
    ensures
        attempt(served(p, now).waits[p.mgr.waiters[0].id()].shot, true) == Attempt::<
            Resolve<T>,
        >::Ready(
            Ok(ResourceResolve::Resource(Some(ResourceGuard::of(next_idle(p.queue, now)->0)))),
        ),
{
    let to = p.mgr.waiters[0];
    let guard = next_idle(p.queue, now)->0;
    let q = after_waiter(after_serve(with_queue(p, after_acquire(p.queue)), to, guard));
    assert forall|i: int| 0 <= i < q.mgr.waiters.len() implies 0 <= (
    #[trigger] q.mgr.waiters[i]).id() < q.waits.len() by {
        assert(q.mgr.waiters[i] == p.mgr.waiters[i + 1]);
    }
    lemma_served_decided(q, now, to.id());
}

/// A resource that is not in use is handed to the handler that disposes of it when
/// the pool is emptied, and nothing else happens to it.
pub proof fn law_evicted_is_handed_over<T, W>(p: PoolView<T, W>, lock: ResourceLock)
    requires
        known(p.queue.cells, lock),
        ready(p.queue.cells, lock),
        p.handlers.dispose,
    ensures
        after_evict(p, lock).spawned == p.spawned.push(
            Operation {
                work: Work::Dispose,
                guard: ResourceGuard::of(guard_at(p.queue.cells, lock)),
            },
        ),
        held(after_evict(p, lock).queue.cells, lock),
{
}

/// A resource that was unused for too long is kept alive as long as no more
/// resources are there than are kept. Otherwise it is disposed of.
pub proof fn law_surplus_is_disposed_of<T, W>(p: PoolView<T, W>, guard: Access<T>)
    requires
        guard.value is Some,
        p.handlers.dispose,
        p.handlers.keepalive,
    ensures
        after_verify(p, guard).spawned == p.spawned.push(
            Operation {
                work: if p.queue.count > p.queue.min_count {
                    Work::Dispose
                } else {
                    Work::Keepalive
                },
                guard: ResourceGuard::of(guard),
            },
        ),
        after_verify(p, guard).queue == p.queue,
{
}

/// What disposing of all resources that are not in use does to locks.
pub proof fn lemma_evictions<T, W>(p: PoolView<T, W>, locks: Seq<ResourceLock>)
    requires
        forall|i: int| 0 <= i < locks.len() ==> known(p.queue.cells, #[trigger] locks[i]),
    ensures
        ({
            let after = after_evictions(p, locks);
            &&& after.queue.cells.len() == p.queue.cells.len()
            &&& after.mgr == p.mgr
            &&& after.state == p.state
            &&& forall|lock: ResourceLock|
                known(p.queue.cells, lock) && held(p.queue.cells, lock) ==> #[trigger] held(
                    after.queue.cells,
                    lock,
                )
            &&& forall|lock: ResourceLock|
                known(p.queue.cells, lock) && vacant(p.queue.cells, lock) ==> #[trigger] vacant(
                    after.queue.cells,
                    lock,
                )
        }),
    decreases locks.len(),
{
    if locks.len() > 0 {
        let rest = locks.drop_last();
        assert forall|i: int| 0 <= i < rest.len() implies known(
            p.queue.cells,
            #[trigger] rest[i],
        ) by {
            assert(rest[i] == locks[i]);
        }
        lemma_evictions(p, rest);
        let mid = after_evictions(p, rest);
        let after = after_evict(mid, locks.last());
        assert(known(p.queue.cells, locks[locks.len() - 1]));
        assert forall|lock: ResourceLock|
            known(p.queue.cells, lock) && held(p.queue.cells, lock) implies #[trigger] held(
            after.queue.cells,
            lock,
        ) by {
            assert(held(mid.queue.cells, lock));
            if lock != locks.last() {
                assert(after.queue.cells[lock.id()] == mid.queue.cells[lock.id()]);
            }
        }
        assert forall|lock: ResourceLock|
            known(p.queue.cells, lock) && vacant(p.queue.cells, lock) implies #[trigger] vacant(
            after.queue.cells,
            lock,
        ) by {
            assert(vacant(mid.queue.cells, lock));
            if lock != locks.last() {
                assert(after.queue.cells[lock.id()] == mid.queue.cells[lock.id()]);
            }
        }
    }
}

/// A pool that nobody uses any more is empty as soon as all its resources were
/// disposed of.
pub proof fn law_emptied_when_disposed_of<T, W>(p: PoolView<T, W>)
    requires
        pool_inv(p),
        p.state is Shutdown,
        forall|i: int|
            0 <= i < p.mgr.repo.len() ==> vacant(p.queue.cells, #[trigger] p.mgr.repo[i]),
    ensures
        is_emptied(after_check(p)),
{
    lemma_evictions(p, p.mgr.repo);
    let cells = after_evictions(p, p.mgr.repo).queue.cells;
    assert forall|i: int| 0 <= i < p.mgr.repo.len() implies !(guarding(cells))(
        #[trigger] p.mgr.repo[i],
    ) by {
        assert(vacant(p.queue.cells, p.mgr.repo[i]));
        assert(vacant(cells, p.mgr.repo[i]));
    }
    p.mgr.repo.lemma_all_neg_filter_empty(guarding(cells));
}

/// A pool is not empty as long as a resource is in use, be it by a user or by the
/// handler that disposes of it.
pub proof fn law_not_emptied_while_used<T, W>(p: PoolView<T, W>, i: int)
    requires
        pool_inv(p),
        0 <= i < p.mgr.repo.len(),
        held(p.queue.cells, p.mgr.repo[i]),
    ensures
        !is_emptied(after_check(p)),
{
    if p.state is Shutdown {
        lemma_evictions(p, p.mgr.repo);
        let cells = after_evictions(p, p.mgr.repo).queue.cells;
        assert(held(cells, p.mgr.repo[i]));
        assert((guarding(cells))(p.mgr.repo[i]));
        p.mgr.repo.lemma_filter_contains(guarding(cells), i);
    }
}

proof fn lemma_last_timers<T, W>(p: PoolView<T, W>, timers: Seq<TimerEntry<Timer>>, id: int)
    requires
        0 <= id < p.shutdowns.len(),
        forall|i: int| 0 <= i < timers.len() ==> timer_known(p, (#[trigger] timers[i]).2),
    ensures
        after_last_timers(p, timers).shutdowns.len() == p.shutdowns.len(),
        after_last_timers(p, timers).waits.len() == p.waits.len(),
        !p.shutdowns[id].open ==> after_last_timers(p, timers).shutdowns[id] == p.shutdowns[id],
        p.shutdowns[id].open ==> after_last_timers(p, timers).shutdowns[id] == p.shutdowns[id]
            || after_last_timers(p, timers).shutdowns[id] == after_reply(p.shutdowns[id], true),
        p.shutdowns[id].open && (exists|i: int|
            0 <= i < timers.len() && (#[trigger] timers[i]).2 is Shutdown
                && timers[i].2->Shutdown_0.id() == id) ==> after_last_timers(
            p,
            timers,
        ).shutdowns[id] == after_reply(p.shutdowns[id], true),
    decreases timers.len(),
{
    if timers.len() > 0 {
        let rest = timers.drop_last();
        assert forall|i: int| 0 <= i < rest.len() implies timer_known(
            p,
            (#[trigger] rest[i]).2,
        ) by {
            assert(rest[i] == timers[i]);
        }
        lemma_last_timers(p, rest, id);
        let mid = after_last_timers(p, rest);
        assert(timer_known(p, timers[timers.len() - 1].2));
        if p.shutdowns[id].open {
            if exists|i: int|
                0 <= i < timers.len() && (#[trigger] timers[i]).2 is Shutdown
                    && timers[i].2->Shutdown_0.id() == id {
                let i = choose|i: int|
                    0 <= i < timers.len() && (#[trigger] timers[i]).2 is Shutdown
                        && timers[i].2->Shutdown_0.id() == id;
                if i < rest.len() {
                    assert(rest[i] == timers[i]);
                }
            }
        }
    }
}

proof fn lemma_dismiss<T, W>(p: PoolView<T, W>, waiters: Seq<WaitResponder>)
    ensures
        after_dismiss(p, waiters).shutdowns == p.shutdowns,
        after_dismiss(p, waiters).queue == p.queue,
    decreases waiters.len(),
{
    if waiters.len() > 0 {
        lemma_dismiss(p, waiters.drop_last());
    }
}

/// When the manager stops, whoever waits for the pool to be empty learns that it
/// is.
pub proof fn law_shutdown_is_confirmed<T, W>(p: PoolView<T, W>, i: int)
    requires
        pool_inv(p),
        0 <= i < p.mgr.timers.len(),
        p.mgr.timers[i].2 is Shutdown,
        wait_inv(p.shutdowns[p.mgr.timers[i].2->Shutdown_0.id()]),
        arrives(p.shutdowns[p.mgr.timers[i].2->Shutdown_0.id()]),
    ensures
        attempt(
            after_stop(p).shutdowns[p.mgr.timers[i].2->Shutdown_0.id()].shot,
            true,
        ) == Attempt::<bool>::Ready(Ok(true)),
        after_stop(p).state is Stopped,
{
    let id = p.mgr.timers[i].2->Shutdown_0.id();
    assert(timer_known(p, p.mgr.timers[i].2));
    lemma_last_timers(p, p.mgr.timers, id);
    lemma_dismiss(after_last_timers(p, p.mgr.timers), p.mgr.waiters);
}

/// When the time is over, whoever waits for the pool to be empty learns that it is
/// not. The pool goes on being emptied.
pub proof fn law_shutdown_times_out<T, W>(p: PoolView<T, W>, to: WaitResponder)
    requires
        0 <= to.id() < p.shutdowns.len(),
        wait_inv(p.shutdowns[to.id()]),
        p.shutdowns[to.id()].open,
    ensures
        attempt(after_cancel_shutdown(p, to).shutdowns[to.id()].shot, true) == Attempt::<
            bool,
        >::Ready(Err(Canceled)),
        after_cancel_shutdown(p, to).state == p.state,
{
}

/// A pool that has stopped stays that way.
pub proof fn law_stopped_for_good<T, W>(p: PoolView<T, W>)
    requires
        p.state is Stopped,
    ensures
        after_shutdown(p).state is Stopped,
        after_check(p).state is Stopped,
        after_round(p).state is Stopped,
{
}

/// Somebody whose wait was called off learns that there will be no resource.
pub proof fn law_wait_is_called_off<T, W>(p: PoolView<T, W>, to: WaitResponder)
    requires
        0 <= to.id() < p.waits.len(),
        wait_inv(p.waits[to.id()]),
        p.waits[to.id()].open,
    ensures
        attempt(after_cancel_wait(p, to).waits[to.id()].shot, true) == Attempt::<
            Resolve<T>,
        >::Ready(Err(Canceled)),
{
}

/// A request is granted from what was returned, or waits for a resource that is
/// created if another may be. Otherwise it is to be made again.
pub proof fn law_request_finds_its_way<T, W>(p: PoolView<T, W>, now: u128)
    ensures
        ({
            let next = from_init(p, now);
            if !p.queue.busy && next_idle(p.queue, now) is Some {
                next.answer == Answer::Granted(next_idle(p.queue, now)->0)
            } else if can_create(p.queue) {
                next.answer is Evaluate && next.pool.queue.cells.len() == p.queue.cells.len() + 1
            } else {
                next.answer is Again && next.pool.queue.cells == p.queue.cells
            }
        }),
{
    lemma_live_idle(p.queue.idle, p.queue.cells);
}

proof fn lemma_timers_stay<T, W>(p: PoolView<T, W>, entries: Seq<TimerEntry<Timer>>, now: u128)
    ensures
        after_timers(p, entries, now).mgr.timers == p.mgr.timers,
    decreases entries.len(),
{
    if entries.len() > 0 {
        lemma_timers_stay(p, entries.drop_last(), now);
    }
}

/// The manager is never told to wait past the time of a timer that was set before the
/// round.
pub proof fn law_no_timer_is_missed<T, W>(p: PoolView<T, W>, now: u128, i: int)
    requires
        pool_inv(p),
        0 <= i < p.mgr.timers.len(),
        p.mgr.timers[i].0 >= now,
    ensures
        ({
            let rest = rest_after(
                after_work(p, now),
                next_check(after_expiry(p, now).mgr.timers),
            );
            rest is Stop || (rest matches Rest::Wait(Some(at)) && at <= p.mgr.timers[i].0)
        }),
{
    let start = with_mgr(p, ManagerView { timers: remaining(p.mgr.timers, now), ..p.mgr });
    let entries = expired(p.mgr.timers, now);
    lemma_timers_stay(start, entries, now);
    law_split(p.mgr.timers, now);
    let left = remaining(p.mgr.timers, now);
    assert((entries + left)[i] == p.mgr.timers[i]);
    if i < entries.len() {
        assert(entries[i].0 < now);
    } else {
        assert(left[i - entries.len()] == p.mgr.timers[i]);
        assert((entries + left)[entries.len() as int] == left[0]);
    }
}

/// The manager learns of every resource whose creation was started.
pub proof fn law_manager_learns_of_resources<T, W>(p: PoolView<T, W>, now: u128)
    requires
        p.queue.cells.len() < usize::MAX,
    ensures
        after_news(with_queue(p, after_create(p.queue))).mgr.repo.contains(
            created_guard(p.queue, now).lock,
        ),
{
    let lock = created_guard(p.queue, now).lock;
    let events = after_create(p.queue).events;
    assert(events.last() == QueueEvent::Created(lock));
    let mid = after_events(p.mgr, events.drop_last());
    if !mid.repo.contains(lock) {
        assert(with_lock(mid.repo, lock)[mid.repo.len() as int] == lock);
    }
}

proof fn lemma_timer_leaves<T, W>(
    p: PoolView<T, W>,
    entry: TimerEntry<Timer>,
    now: u128,
    lock: ResourceLock,
    first: int,
)
    requires
        held(p.queue.cells, lock),
        entry.2 is Verify ==> 0 <= entry.2->Verify_0.id() < first,
        first <= p.queue.cells.len(),
        p.queue.cells.len() < usize::MAX,
        queue_inv(p.queue),
    ensures
        ({
            let post = after_timer(p, entry, now);
            &&& held(post.queue.cells, lock)
            &&& p.queue.cells.len() <= post.queue.cells.len() <= p.queue.cells.len() + 1
            &&& queue_inv(post.queue)
        }),
{
    if entry.2 is Verify {
        let about = entry.2->Verify_0;
        if !(p.queue.cells[about.id()] is Held) {
            let moved = after_manager_detach(p, about);
            assert(moved.queue.cells[lock.id()] == p.queue.cells[lock.id()]);
        }
    }
}

/// Timers leave a resource that is in use alone.
pub proof fn lemma_timers_leave<T, W>(
    p: PoolView<T, W>,
    entries: Seq<TimerEntry<Timer>>,
    now: u128,
    lock: ResourceLock,
)
    requires
        held(p.queue.cells, lock),
        forall|i: int| 0 <= i < entries.len() ==> timer_known(p, (#[trigger] entries[i]).2),
        p.queue.cells.len() + entries.len() <= usize::MAX,
        queue_inv(p.queue),
    ensures
        ({
            let post = after_timers(p, entries, now);
            &&& held(post.queue.cells, lock)
            &&& p.queue.cells.len() <= post.queue.cells.len() <= p.queue.cells.len()
                + entries.len()
            &&& queue_inv(post.queue)
        }),
    decreases entries.len(),
{
    if entries.len() > 0 {
        let rest = entries.drop_last();
        assert forall|i: int| 0 <= i < rest.len() implies timer_known(
            p,
            (#[trigger] rest[i]).2,
        ) by {
            assert(rest[i] == entries[i]);
        }
        lemma_timers_leave(p, rest, now, lock);
        assert(timer_known(p, entries[entries.len() - 1].2));
        lemma_timer_leaves(
            after_timers(p, rest, now),
            entries.last(),
            now,
            lock,
            p.queue.cells.len() as int,
        );
    }
}

proof fn lemma_served_leaves<T, W>(p: PoolView<T, W>, now: u128, lock: ResourceLock)
    requires
        held(p.queue.cells, lock),
        queue_inv(p.queue),
    ensures
        held(served(p, now).queue.cells, lock),
    decreases p.mgr.waiters.len(),
{
    if p.mgr.waiters.len() > 0 {
        let to = p.mgr.waiters[0];
        if !arrives(p.waits[to.id()]) {
            lemma_served_leaves(after_waiter(p), now, lock);
        } else {
            let live = live_idle(p.queue.idle, p.queue.cells);
            let after = after_acquire(p.queue);
            lemma_live_idle(p.queue.idle, p.queue.cells);
            assert forall|i: int| 0 <= i < live.len() implies known(
                p.queue.cells,
                #[trigger] live[i],
            ) by {
                assert(live[i] == p.queue.idle[i + p.queue.idle.len() - live.len()]);
            }
            if next_idle(p.queue, now) is Some {
                assert(live[0] != lock);
                assert(queue_inv(after));
                let q = with_queue(p, after);
                lemma_served_leaves(
                    after_waiter(after_serve(q, to, next_idle(p.queue, now)->0)),
                    now,
                    lock,
                );
            }
        }
    }
}

/// Nothing that is shared changes with the timers that are left.
pub proof fn lemma_last_timers_queue<T, W>(p: PoolView<T, W>, timers: Seq<TimerEntry<Timer>>)
    ensures
        after_last_timers(p, timers).queue == p.queue,
    decreases timers.len(),
{
    if timers.len() > 0 {
        lemma_last_timers_queue(p, timers.drop_last());
    }
}

/// The manager leaves a resource that is in use alone: nobody else gets hold of
/// it, and it is not disposed of.
pub proof fn law_used_is_left_alone<T, W>(p: PoolView<T, W>, now: u128, lock: ResourceLock)
    requires
        pool_inv(p),
        pool_inv(after_work(p, now)),
        held(p.queue.cells, lock),
        p.queue.cells.len() + p.mgr.timers.len() <= usize::MAX,
    ensures
        held(after_round(after_work(p, now)).queue.cells, lock),
{
    let start = with_mgr(p, ManagerView { timers: remaining(p.mgr.timers, now), ..p.mgr });
    let entries = expired(p.mgr.timers, now);
    law_split(p.mgr.timers, now);
    assert forall|i: int| 0 <= i < entries.len() implies timer_known(
        start,
        (#[trigger] entries[i]).2,
    ) by {
        assert(entries[i] == p.mgr.timers[i]);
        assert(timer_known(p, p.mgr.timers[i].2));
    }
    lemma_timers_leave(start, entries, now, lock);
    let heard = after_inbox(after_news(after_expiry(p, now)));
    let told = with_queue(heard, QueueView { busy: heard.mgr.waiters.len() > 0, ..heard.queue });
    lemma_served_leaves(told, now, lock);
    let after = after_work(p, now);
    if after.state is Shutdown {
        lemma_evictions(after, after.mgr.repo);
        assert(held(after_evictions(after, after.mgr.repo).queue.cells, lock));
    }
    let checked = after_check(after);
    lemma_last_timers_queue(checked, checked.mgr.timers);
    lemma_dismiss(after_last_timers(checked, checked.mgr.timers), checked.mgr.waiters);
}

/// A pool is in use as long as there is a handle to it. A request is one.
pub proof fn law_in_use_while_requested<T, W>(p: PoolView<T, W>)
    requires
        0 < p.handles < usize::MAX,
    ensures
        ({
            let requested = PoolView { handles: (p.handles + 1) as usize, ..p };
            after_drop_handle(requested) == p
        }),
{
}

/// Check that the number of resources is what a pool reports.
pub open spec fn counted<T>(s: QueueView<T>) -> bool {
    s.count == allocated(s.cells)
}

/// A resource is counted when its creation starts.
pub proof fn law_created_is_counted<T>(s: QueueView<T>)
    requires
        counted(s),
        s.count < usize::MAX,
    ensures
        counted(after_try_create(s)),
{
    lemma_allocated_push(s.cells, Cell::Held);
}

/// A resource that is returned is counted, unless it was disposed of.
pub proof fn law_returned_is_counted<T>(s: QueueView<T>, guard: Access<T>, now: u128)
    requires
        counted(s),
        held(s.cells, guard.lock),
    ensures
        counted(after_release(s, guard, now)),
{
    let after = after_release(s, guard, now);
    lemma_allocated_update(s.cells, guard.lock.id(), after.cells[guard.lock.id()]);
    assert(after.cells =~= s.cells.update(guard.lock.id(), after.cells[guard.lock.id()]));
}

/// A resource stays counted when it is handed out.
pub proof fn law_handed_out_is_counted<T>(s: QueueView<T>)
    requires
        counted(s),
        queue_inv(s),
    ensures
        counted(after_acquire(s)),
{
    let live = live_idle(s.idle, s.cells);
    lemma_live_idle(s.idle, s.cells);
    if live.len() > 0 {
        assert(live[0] == s.idle[s.idle.len() - live.len()]);
        lemma_allocated_update(s.cells, live[0].id(), Cell::Held);
    }
}

/// A resource stays counted until the handler has disposed of it.
pub proof fn law_evicted_is_counted<T, W>(p: PoolView<T, W>, lock: ResourceLock)
    requires
        counted(p.queue),
        known(p.queue.cells, lock),
        !vacant(p.queue.cells, lock),
    ensures
        counted(after_evict(p, lock).queue),
{
    if !held(p.queue.cells, lock) {
        let guard = guard_at(p.queue.cells, lock);
        lemma_allocated_update(p.queue.cells, lock.id(), Cell::Held);
        assert(p.queue.cells.update(lock.id(), Cell::Held).update(
            lock.id(),
            Cell::Free(guard.info, guard.value),
        ) =~= p.queue.cells);
    }
}

/// A resource stays counted when the manager moves it to a new lock.
pub proof fn law_moved_is_counted<T, W>(p: PoolView<T, W>, lock: ResourceLock)
    requires
        counted(p.queue),
        known(p.queue.cells, lock),
        ready(p.queue.cells, lock),
    ensures
        counted(after_manager_detach(p, lock).queue),
{
    let guard = guard_at(p.queue.cells, lock);
    let left = p.queue.cells.update(lock.id(), Cell::Free(guard.info, None::<T>));
    assert(after_manager_detach(p, lock).queue.cells =~= left.push(Cell::Held));
    lemma_allocated_update(p.queue.cells, lock.id(), Cell::Free(guard.info, None::<T>));
    lemma_allocated_push(left, Cell::Held);
}

} // verus!
