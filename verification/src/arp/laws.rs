//! What can be relied on in such a pool.

use vstd::prelude::*;

use crate::arp::acquire::{from_init, from_waiting};
use crate::arp::model::{
    after_cancel_shutdown, after_cancel_wait, after_check, after_create, after_dismiss,
    after_drop_handle, after_events, after_evict, after_evictions, after_idle, after_inbox,
    after_last_timers, after_manager_detach, after_news, after_note, after_round, after_serve,
    after_shutdown, after_stop, after_try_create, after_waiter, after_waiters, can_create,
    created_guard, created_info, detached, expiry, idle_resource, is_emptied, next_check, pool_inv,
    rest_after, round, served, timer_expires, timer_known, timers_expire, try_created, with_mgr,
    with_shared, ManagerView, PoolView, Timer,
};
use crate::arp::shared::{
    after_acquire, after_dispose, after_keep, after_return, hook_says, may_keep, next_idle,
    released, returned, shared_inv, SharedView,
};
use crate::dropshot::{attempt, Attempt, Canceled};
use crate::pool::acquire::Answer;
use crate::pool::laws::lemma_live_push;
use crate::pool::model::{lemma_live_idle, Access, Resolve, Rest};
use crate::resource::info::{acquired_info, ResourceInfo};
use crate::resource::lock::{
    allocated, held, known, lemma_allocated_push, lemma_allocated_update, ready, vacant, Cell,
    GuardView, ResourceGuard, ResourceLock,
};
use crate::resource::operation::ResourceResolve;
use crate::resource::repo::{guarding, with_lock};
use crate::shared::{guard_at, later, live_idle, SharedEvent};
use crate::timers::{expired, law_split, remaining, TimerEntry};
use crate::wait::{after_reply, arrives, wait_inv, WaitResponder};

verus! {

broadcast use {
    ResourceLock::lemma_at,
    ResourceLock::lemma_same,
    ResourceGuard::lemma_of,
    ResourceGuard::lemma_view,
};

/// A guard as it is when its resource was kept.
pub open spec fn kept<T>(s: SharedView<T>, guard: Access<T>, now: u128) -> Access<T> {
    GuardView {
        info: ResourceInfo { verify_at: later(now, s.idle_timeout), ..guard.info },
        ..guard
    }
}

/// A guard as it is when its resource was handed out.
pub open spec fn handed_out<T>(guard: Access<T>, now: u128) -> Access<T> {
    GuardView { info: acquired_info(guard.info, now), ..guard }
}

/// A resource that was kept is the one that is handed out next, unless another was
/// returned before.
pub proof fn law_kept_is_handed_out<T>(s: SharedView<T>, guard: Access<T>, now: u128, then: u128)
    requires
        shared_inv(s),
        known(s.cells, guard.lock),
        guard.value is Some,
        next_idle(s, then) is None,
    ensures
        next_idle(after_keep(s, guard, now), then) == Some(handed_out(kept(s, guard, now), then)),
{
    lemma_live_push(s.idle, s.cells, kept(s, guard, now));
}

/// What was returned first is handed out first.
pub proof fn law_first_returned_first_out<T>(
    s: SharedView<T>,
    guard: Access<T>,
    now: u128,
    then: u128,
)
    requires
        shared_inv(s),
        held(s.cells, guard.lock),
        guard.value is Some,
        next_idle(s, then) is Some,
        forall|i: int| 0 <= i < s.idle.len() ==> #[trigger] s.idle[i] != guard.lock,
    ensures
        next_idle(after_keep(s, guard, now), then) == next_idle(s, then),
{
    lemma_live_push(s.idle, s.cells, kept(s, guard, now));
    lemma_live_idle(s.idle, s.cells);
    let live = live_idle(s.idle, s.cells);
    assert(live[0] == s.idle[s.idle.len() - live.len()]);
}

/// A resource that is returned is either kept, and found behind its lock, or
/// disposed of, and handed to whoever wants to see it. Never both, and never
/// neither.
pub proof fn law_returned_is_kept_or_disposed<T>(
    s: SharedView<T>,
    guard: Access<T>,
    is_kept: bool,
    now: u128,
)
    requires
        known(s.cells, guard.lock),
        guard.value is Some,
    ensures
        ({
            let after = after_return(s, guard, is_kept, now);
            &&& is_kept ==> ready(after.cells, guard.lock) && guard_at(after.cells, guard.lock)
                == kept(s, guard, now) && after.idle.last() == guard.lock && after.disposed
                == s.disposed && after.count == s.count
            &&& !is_kept ==> vacant(after.cells, guard.lock) && after.disposed == s.disposed.push(
                (guard.value->0, guard.info),
            ) && after.idle == s.idle && after.count == s.count.wrapping_sub(1)
        }),
{
}

/// Without an idle timeout, and while nobody waits, a resource that was created by
/// the pool is disposed of as soon as it is returned.
pub proof fn law_disposed_at_once<T, R: Fn(T, ResourceInfo) -> (T, bool)>(
    s: SharedView<T>,
    hook: Option<R>,
    guard: Access<T>,
    now: u128,
    post: SharedView<T>,
)
    requires
        !s.busy,
        !guard.info.reusable,
        released(s, hook, guard, now, post),
    ensures
        post == after_dispose(s, returned(guard, now)),
        s.idle_timeout is None ==> !created_info(s, now).reusable,
{
}

/// While somebody waits, a resource that is returned is kept, unless a hook says
/// otherwise.
pub proof fn law_kept_while_busy<T, R: Fn(T, ResourceInfo) -> (T, bool)>(
    s: SharedView<T>,
    guard: Access<T>,
    now: u128,
    post: SharedView<T>,
)
    requires
        s.busy,
        released::<T, R>(s, None, guard, now, post),
    ensures
        post == after_keep(s, returned(guard, now), now),
{
}

/// There are never more resources created than there may be.
pub proof fn law_max_count<T>(s: SharedView<T>, now: u128)
    requires
        s.max_count > 0,
        s.count <= s.max_count,
    ensures
        after_try_create(s).count <= s.max_count,
        s.count == s.max_count ==> after_try_create(s) == s && try_created(s, now)
            == ResourceResolve::<ResourceInfo, T>::Resource(None),
        s.count < s.max_count ==> after_try_create(s).count == s.count + 1,
{
}

/// Nobody who comes later gets a resource that was returned while others wait.
pub proof fn law_waiters_come_first<T>(s: SharedView<T>, now: u128)
    requires
        s.busy,
    ensures
        idle_resource(s, now) == ResourceResolve::<ResourceInfo, T>::Resource(None),
        after_idle(s) == s,
{
}

/// After the manager turned to those who wait, the pool is busy if and only if
/// somebody did.
pub proof fn law_busy_while_waited_for<T, W>(p: PoolView<T, W>, now: u128)
    ensures
        after_waiters(p, now).shared.busy == (p.mgr.waiters.len() > 0),
{
    let told = with_shared(p, SharedView { busy: p.mgr.waiters.len() > 0, ..p.shared });
    lemma_served_busy(told, now);
}

proof fn lemma_served_busy<T, W>(p: PoolView<T, W>, now: u128)
    ensures
        served(p, now).shared.busy == p.shared.busy,
    decreases p.mgr.waiters.len(),
{
    if p.mgr.waiters.len() > 0 {
        let to = p.mgr.waiters[0];
        if !arrives(p.waits[to.id()]) {
            lemma_served_busy(after_waiter(p), now);
        } else if next_idle(p.shared, now) is Some {
            let q = with_shared(p, after_acquire(p.shared));
            lemma_served_busy(after_waiter(after_serve(q, to, next_idle(p.shared, now)->0)), now);
        }
    }
}

proof fn lemma_served_decided<T, W>(p: PoolView<T, W>, now: u128, id: int)
    requires
        0 <= id < p.waits.len(),
        !p.waits[id].open,
        forall|i: int|
            0 <= i < p.mgr.waiters.len() ==> 0 <= (#[trigger] p.mgr.waiters[i]).id()
                < p.waits.len(),
    ensures
        served(p, now).waits.len() == p.waits.len(),
        served(p, now).waits[id] == p.waits[id],
    decreases p.mgr.waiters.len(),
{
    if p.mgr.waiters.len() > 0 {
        let to = p.mgr.waiters[0];
        let next = if !arrives(p.waits[to.id()]) {
            after_waiter(p)
        } else {
            let q = with_shared(p, after_acquire(p.shared));
            after_waiter(after_serve(q, to, next_idle(p.shared, now)->0))
        };
        assert forall|i: int| 0 <= i < next.mgr.waiters.len() implies 0 <= (
        #[trigger] next.mgr.waiters[i]).id() < p.waits.len() by {
            assert(next.mgr.waiters[i] == p.mgr.waiters[i + 1]);
        }
        if !arrives(p.waits[to.id()]) || next_idle(p.shared, now) is Some {
            lemma_served_decided(next, now, id);
        }
    }
}

/// The resource that was returned first goes to the one who waits longest.
pub proof fn law_longest_wait_is_served_first<T, W>(p: PoolView<T, W>, now: u128)
    requires
        pool_inv(p),
        p.mgr.waiters.len() > 0,
        wait_inv(p.waits[p.mgr.waiters[0].id()]),
        arrives(p.waits[p.mgr.waiters[0].id()]),
        next_idle(p.shared, now) is Some,
    ensures
        attempt(served(p, now).waits[p.mgr.waiters[0].id()].shot, true) == Attempt::<
            Resolve<T>,
        >::Ready(
            Ok(ResourceResolve::Resource(Some(ResourceGuard::of(next_idle(p.shared, now)->0)))),
        ),
{
    let to = p.mgr.waiters[0];
    let guard = next_idle(p.shared, now)->0;
    let q = after_waiter(after_serve(with_shared(p, after_acquire(p.shared)), to, guard));
    assert forall|i: int| 0 <= i < q.mgr.waiters.len() implies 0 <= (
    #[trigger] q.mgr.waiters[i]).id() < q.waits.len() by {
        assert(q.mgr.waiters[i] == p.mgr.waiters[i + 1]);
    }
    lemma_served_decided(q, now, to.id());
}

/// What disposing of all resources that are not in use does to locks.
pub proof fn lemma_evictions<T>(s: SharedView<T>, locks: Seq<ResourceLock>)
    requires
        forall|i: int| 0 <= i < locks.len() ==> known(s.cells, #[trigger] locks[i]),
    ensures
        ({
            let after = after_evictions(s, locks);
            &&& after.cells.len() == s.cells.len()
            &&& forall|lock: ResourceLock|
                known(s.cells, lock) && held(s.cells, lock) ==> #[trigger] held(after.cells, lock)
            &&& forall|lock: ResourceLock|
                known(s.cells, lock) && vacant(s.cells, lock) ==> #[trigger] vacant(
                    after.cells,
                    lock,
                )
            &&& forall|i: int|
                0 <= i < locks.len() && !held(s.cells, locks[i]) ==> vacant(
                    after.cells,
                    #[trigger] locks[i],
                )
            &&& forall|lock: ResourceLock|
                known(s.cells, lock) && #[trigger] held(after.cells, lock) ==> held(s.cells, lock)
        }),
    decreases locks.len(),
{
    if locks.len() > 0 {
        let rest = locks.drop_last();
        assert forall|i: int| 0 <= i < rest.len() implies known(s.cells, #[trigger] rest[i]) by {
            assert(rest[i] == locks[i]);
        }
        lemma_evictions(s, rest);
        let mid = after_evictions(s, rest);
        let after = after_evict(mid, locks.last());
        assert(known(s.cells, locks[locks.len() - 1]));
        assert forall|lock: ResourceLock| known(s.cells, lock) implies {
            &&& held(s.cells, lock) ==> #[trigger] held(after.cells, lock)
            &&& held(after.cells, lock) ==> held(s.cells, lock)
        } by {
            assert(held(s.cells, lock) ==> held(mid.cells, lock));
            assert(held(mid.cells, lock) ==> held(s.cells, lock));
            if lock != locks.last() {
                assert(after.cells[lock.id()] == mid.cells[lock.id()]);
            }
        }
        assert forall|lock: ResourceLock|
            known(s.cells, lock) && vacant(s.cells, lock) implies #[trigger] vacant(
            after.cells,
            lock,
        ) by {
            assert(vacant(mid.cells, lock));
            if lock != locks.last() {
                assert(after.cells[lock.id()] == mid.cells[lock.id()]);
            }
        }
        assert forall|i: int|
            0 <= i < locks.len() && !held(s.cells, locks[i]) implies vacant(
            after.cells,
            #[trigger] locks[i],
        ) by {
            assert(held(mid.cells, locks[i]) ==> held(s.cells, locks[i]));
            if i < rest.len() {
                assert(rest[i] == locks[i]);
                assert(vacant(mid.cells, rest[i]));
            }
            if locks[i] != locks.last() {
                assert(after.cells[locks[i].id()] == mid.cells[locks[i].id()]);
            }
        }
    }
}

/// A pool that nobody uses any more is empty as soon as no resource is in use.
pub proof fn law_emptied_when_unused<T, W>(p: PoolView<T, W>)
    requires
        pool_inv(p),
        p.state is Shutdown,
        forall|i: int| 0 <= i < p.mgr.repo.len() ==> !held(p.shared.cells, #[trigger] p.mgr.repo[i]),
    ensures
        is_emptied(after_check(p)),
{
    lemma_evictions(p.shared, p.mgr.repo);
    let cells = after_evictions(p.shared, p.mgr.repo).cells;
    assert forall|i: int| 0 <= i < p.mgr.repo.len() implies !(guarding(cells))(
        #[trigger] p.mgr.repo[i],
    ) by {
        assert(!held(p.shared.cells, p.mgr.repo[i]));
        assert(vacant(cells, p.mgr.repo[i]));
    }
    p.mgr.repo.lemma_all_neg_filter_empty(guarding(cells));
}

/// A pool is not empty as long as a resource is in use.
pub proof fn law_not_emptied_while_used<T, W>(p: PoolView<T, W>, i: int)
    requires
        pool_inv(p),
        0 <= i < p.mgr.repo.len(),
        held(p.shared.cells, p.mgr.repo[i]),
    ensures
        !is_emptied(after_check(p)),
{
    if p.state is Shutdown {
        lemma_evictions(p.shared, p.mgr.repo);
        let cells = after_evictions(p.shared, p.mgr.repo).cells;
        assert(held(cells, p.mgr.repo[i]));
        assert((guarding(cells))(p.mgr.repo[i]));
        p.mgr.repo.lemma_filter_contains(guarding(cells), i);
    }
}

proof fn lemma_last_timers<T, W>(p: PoolView<T, W>, timers: Seq<TimerEntry<Timer>>, id: int)
    requires
        0 <= id < p.shutdowns.len(),
        forall|i: int| 0 <= i < timers.len() ==> timer_known(p, (#[trigger] timers[i]).2),
    ensures
        after_last_timers(p, timers).shutdowns.len() == p.shutdowns.len(),
        after_last_timers(p, timers).waits.len() == p.waits.len(),
        !p.shutdowns[id].open ==> after_last_timers(p, timers).shutdowns[id] == p.shutdowns[id],
        p.shutdowns[id].open ==> after_last_timers(p, timers).shutdowns[id] == p.shutdowns[id]
            || after_last_timers(p, timers).shutdowns[id] == after_reply(p.shutdowns[id], true),
        p.shutdowns[id].open && (exists|i: int|
            0 <= i < timers.len() && (#[trigger] timers[i]).2 is Shutdown
                && timers[i].2->Shutdown_0.id() == id) ==> after_last_timers(
            p,
            timers,
        ).shutdowns[id] == after_reply(p.shutdowns[id], true),
    decreases timers.len(),
{
    if timers.len() > 0 {
        let rest = timers.drop_last();
        assert forall|i: int| 0 <= i < rest.len() implies timer_known(
            p,
            (#[trigger] rest[i]).2,
        ) by {
            assert(rest[i] == timers[i]);
        }
        lemma_last_timers(p, rest, id);
        let mid = after_last_timers(p, rest);
        assert(timer_known(p, timers[timers.len() - 1].2));
        if p.shutdowns[id].open {
            if exists|i: int|
                0 <= i < timers.len() && (#[trigger] timers[i]).2 is Shutdown
                    && timers[i].2->Shutdown_0.id() == id {
                let i = choose|i: int|
                    0 <= i < timers.len() && (#[trigger] timers[i]).2 is Shutdown
                        && timers[i].2->Shutdown_0.id() == id;
                if i < rest.len() {
                    assert(rest[i] == timers[i]);
                }
            }
        }
    }
}

proof fn lemma_dismiss<T, W>(p: PoolView<T, W>, waiters: Seq<WaitResponder>)
    ensures
        after_dismiss(p, waiters).shutdowns == p.shutdowns,
        after_dismiss(p, waiters).shared == p.shared,
    decreases waiters.len(),
{
    if waiters.len() > 0 {
        lemma_dismiss(p, waiters.drop_last());
    }
}

/// When the manager stops, whoever waits for the pool to be empty learns that it
/// is.
pub proof fn law_shutdown_is_confirmed<T, W>(p: PoolView<T, W>, i: int)
    requires
        pool_inv(p),
        0 <= i < p.mgr.timers.len(),
        p.mgr.timers[i].2 is Shutdown,
        wait_inv(p.shutdowns[p.mgr.timers[i].2->Shutdown_0.id()]),
        arrives(p.shutdowns[p.mgr.timers[i].2->Shutdown_0.id()]),
    ensures
        attempt(
            after_stop(p).shutdowns[p.mgr.timers[i].2->Shutdown_0.id()].shot,
            true,
        ) == Attempt::<bool>::Ready(Ok(true)),
        after_stop(p).state is Stopped,
{
    let id = p.mgr.timers[i].2->Shutdown_0.id();
    assert(timer_known(p, p.mgr.timers[i].2));
    lemma_last_timers(p, p.mgr.timers, id);
    lemma_dismiss(after_last_timers(p, p.mgr.timers), p.mgr.waiters);
}

/// When the time is over, whoever waits for the pool to be empty learns that it is
/// not. The pool goes on being emptied.
pub proof fn law_shutdown_times_out<T, W>(p: PoolView<T, W>, to: WaitResponder)
    requires
        0 <= to.id() < p.shutdowns.len(),
        wait_inv(p.shutdowns[to.id()]),
        p.shutdowns[to.id()].open,
    ensures
        attempt(after_cancel_shutdown(p, to).shutdowns[to.id()].shot, true) == Attempt::<
            bool,
        >::Ready(Err(Canceled)),
        after_cancel_shutdown(p, to).state == p.state,
{
}

/// A pool that has stopped stays that way.
pub proof fn law_stopped_for_good<T, W>(p: PoolView<T, W>)
    requires
        p.state is Stopped,
    ensures
        after_shutdown(p).state is Stopped,
        after_check(p).state is Stopped,
        after_round(p).state is Stopped,
{
}

/// Somebody whose wait was called off learns that no resource came in time.
pub proof fn law_wait_times_out<T, W>(
    p: PoolView<T, W>,
    to: WaitResponder,
    start: u128,
    now: u128,
    waker: W,
)
    requires
        0 <= to.id() < p.waits.len(),
        wait_inv(p.waits[to.id()]),
        p.waits[to.id()].open,
    ensures
        from_waiting(after_cancel_wait(p, to), to.id(), start, now, waker).answer is Timeout,
{
}

/// A request is granted from what was returned, or waits for a resource that is
/// created if another may be, and for the manager otherwise.
pub proof fn law_request_finds_its_way<T, W>(p: PoolView<T, W>, start: u128, now: u128, waker: W)
    ensures
        ({
            let next = from_init(p, start, now, waker);
            if !p.shared.busy && next_idle(p.shared, now) is Some {
                next.answer == Answer::Granted(next_idle(p.shared, now)->0)
            } else if can_create(p.shared) {
                next.answer is Evaluate && next.pool.shared.cells.len() == p.shared.cells.len() + 1
            } else {
                next.answer is Pending && next.pool.registers.len() == p.registers.len() + 1
                    && next.pool.shared.notified
            }
        }),
{
    lemma_live_idle(p.shared.idle, p.shared.cells);
}

proof fn lemma_timers_stay<T, W, R: Fn(T, ResourceInfo) -> (T, bool)>(
    p: PoolView<T, W>,
    hook: Option<R>,
    entries: Seq<TimerEntry<Timer>>,
    now: u128,
    post: PoolView<T, W>,
)
    requires
        timers_expire(p, hook, entries, now, post),
    ensures
        post.mgr.timers == p.mgr.timers,
    decreases entries.len(),
{
    if entries.len() > 0 {
        let mid = choose|mid: PoolView<T, W>|
            timers_expire(p, hook, entries.drop_last(), now, mid) && #[trigger] timer_expires(
                mid,
                hook,
                entries.last(),
                now,
                post,
            );
        lemma_timers_stay(p, hook, entries.drop_last(), now, mid);
    }
}

/// The manager is never told to wait past the time of a timer that was set before the
/// round.
pub proof fn law_no_timer_is_missed<T, W, R: Fn(T, ResourceInfo) -> (T, bool)>(
    p: PoolView<T, W>,
    hook: Option<R>,
    now: u128,
    post: PoolView<T, W>,
    rest: Rest,
    i: int,
)
    requires
        pool_inv(p),
        0 <= i < p.mgr.timers.len(),
        p.mgr.timers[i].0 >= now,
        round(p, hook, now, post, rest),
    ensures
        rest is Stop || (rest matches Rest::Wait(Some(at)) && at <= p.mgr.timers[i].0),
{
    let on_time = choose|on_time: PoolView<T, W>| #[trigger]
        expiry(p, hook, now, on_time) && pool_inv(on_time) && {
            let after = after_waiters(after_inbox(after_news(on_time)), now);
            &&& pool_inv(after)
            &&& post == after_round(after)
            &&& rest == rest_after(after, next_check(on_time.mgr.timers))
        };
    let start = with_mgr(p, ManagerView { timers: remaining(p.mgr.timers, now), ..p.mgr });
    let entries = expired(p.mgr.timers, now);
    lemma_timers_stay(start, hook, entries, now, on_time);
    law_split(p.mgr.timers, now);
    let left = remaining(p.mgr.timers, now);
    assert((entries + left)[i] == p.mgr.timers[i]);
    if i < entries.len() {
        assert(entries[i].0 < now);
    } else {
        assert(left[i - entries.len()] == p.mgr.timers[i]);
        assert((entries + left)[entries.len() as int] == left[0]);
    }
}

/// The manager does not forget a lock because of news.
pub proof fn lemma_events_keep(m: ManagerView, events: Seq<SharedEvent>, lock: ResourceLock)
    ensures
        m.repo.contains(lock) ==> after_events(m, events).repo.contains(lock),
        (exists|i: int| 0 <= i < events.len() && #[trigger] events[i] == SharedEvent::Created(lock))
            ==> after_events(m, events).repo.contains(lock),
    decreases events.len(),
{
    if events.len() > 0 {
        let rest = events.drop_last();
        lemma_events_keep(m, rest, lock);
        let mid = after_events(m, rest);
        let last = events.last();
        if mid.repo.contains(lock) {
            if last is Created {
                let j = choose|j: int| 0 <= j < mid.repo.len() && mid.repo[j] == lock;
                assert(with_lock(mid.repo, last->Created_0)[j] == lock);
            }
        }
        if exists|i: int| 0 <= i < events.len() && #[trigger] events[i] == SharedEvent::Created(
            lock,
        ) {
            let i = choose|i: int|
                0 <= i < events.len() && #[trigger] events[i] == SharedEvent::Created(lock);
            if i < rest.len() {
                assert(rest[i] == SharedEvent::Created(lock));
            } else if !mid.repo.contains(lock) {
                assert(mid.repo.push(lock)[mid.repo.len() as int] == lock);
            }
        }
    }
}

/// The manager learns of every resource whose creation was started.
pub proof fn law_manager_learns_of_resources<T, W>(p: PoolView<T, W>, now: u128)
    requires
        p.shared.cells.len() < usize::MAX,
    ensures
        after_news(with_shared(p, after_create(p.shared))).mgr.repo.contains(
            created_guard(p.shared, now).lock,
        ),
{
    let lock = created_guard(p.shared, now).lock;
    let events = after_create(p.shared).events;
    assert(events[events.len() - 1] == SharedEvent::Created(lock));
    lemma_events_keep(p.mgr, events, lock);
}

proof fn lemma_release_leaves<T, R: Fn(T, ResourceInfo) -> (T, bool)>(
    s: SharedView<T>,
    hook: Option<R>,
    guard: Access<T>,
    now: u128,
    post: SharedView<T>,
    lock: ResourceLock,
)
    requires
        released(s, hook, guard, now, post),
        held(s.cells, lock),
        known(s.cells, guard.lock),
        guard.lock != lock,
    ensures
        held(post.cells, lock),
        post.cells.len() == s.cells.len(),
{
    let back = returned(guard, now);
    if may_keep(s, back) {
        let (value, is_kept) = choose|value: Option<T>, is_kept: bool| #[trigger]
            hook_says(hook, back, value, is_kept) && post == after_return(
                s,
                GuardView { value, ..back },
                is_kept,
                now,
            );
        assert(post == after_return(s, GuardView { value, ..back }, is_kept, now));
    }
}

proof fn lemma_timer_leaves<T, W, R: Fn(T, ResourceInfo) -> (T, bool)>(
    p: PoolView<T, W>,
    hook: Option<R>,
    entry: TimerEntry<Timer>,
    now: u128,
    post: PoolView<T, W>,
    lock: ResourceLock,
    first: int,
)
    requires
        timer_expires(p, hook, entry, now, post),
        held(p.shared.cells, lock),
        entry.2 is Verify ==> 0 <= entry.2->Verify_0.id() < first,
        first <= p.shared.cells.len(),
        p.shared.cells.len() < usize::MAX,
    ensures
        held(post.shared.cells, lock),
        p.shared.cells.len() <= post.shared.cells.len() <= p.shared.cells.len() + 1,
{
    if entry.2 is Verify {
        let about = entry.2->Verify_0;
        if !(p.shared.cells[about.id()] is Held) {
            let guard = detached(p.shared, about);
            let moved = after_manager_detach(p, about);
            assert(moved.shared.cells[lock.id()] == p.shared.cells[lock.id()]);
            if !(guard.value is Some && guard.info.verify_at == Some(entry.0)) {
                let noted = with_mgr(moved, after_note(moved.mgr, guard.lock));
                lemma_release_leaves(noted.shared, hook, guard, now, post.shared, lock);
            }
        }
    }
}

/// Timers leave a resource that is in use alone.
pub proof fn lemma_timers_leave<T, W, R: Fn(T, ResourceInfo) -> (T, bool)>(
    p: PoolView<T, W>,
    hook: Option<R>,
    entries: Seq<TimerEntry<Timer>>,
    now: u128,
    post: PoolView<T, W>,
    lock: ResourceLock,
)
    requires
        timers_expire(p, hook, entries, now, post),
        held(p.shared.cells, lock),
        forall|i: int| 0 <= i < entries.len() ==> timer_known(p, (#[trigger] entries[i]).2),
        p.shared.cells.len() + entries.len() <= usize::MAX,
    ensures
        held(post.shared.cells, lock),
        p.shared.cells.len() <= post.shared.cells.len() <= p.shared.cells.len() + entries.len(),
    decreases entries.len(),
{
    if entries.len() > 0 {
        let rest = entries.drop_last();
        let mid = choose|mid: PoolView<T, W>|
            timers_expire(p, hook, rest, now, mid) && #[trigger] timer_expires(
                mid,
                hook,
                entries.last(),
                now,
                post,
            );
        assert forall|i: int| 0 <= i < rest.len() implies timer_known(
            p,
            (#[trigger] rest[i]).2,
        ) by {
            assert(rest[i] == entries[i]);
        }
        lemma_timers_leave(p, hook, rest, now, mid, lock);
        assert(timer_known(p, entries[entries.len() - 1].2));
        lemma_timer_leaves(
            mid,
            hook,
            entries.last(),
            now,
            post,
            lock,
            p.shared.cells.len() as int,
        );
    }
}

proof fn lemma_served_leaves<T, W>(p: PoolView<T, W>, now: u128, lock: ResourceLock)
    requires
        held(p.shared.cells, lock),
        shared_inv(p.shared),
    ensures
        held(served(p, now).shared.cells, lock),
    decreases p.mgr.waiters.len(),
{
    if p.mgr.waiters.len() > 0 {
        let to = p.mgr.waiters[0];
        if !arrives(p.waits[to.id()]) {
            lemma_served_leaves(after_waiter(p), now, lock);
        } else {
            let live = live_idle(p.shared.idle, p.shared.cells);
            let after = after_acquire(p.shared);
            lemma_live_idle(p.shared.idle, p.shared.cells);
            assert forall|i: int| 0 <= i < live.len() implies known(
                p.shared.cells,
                #[trigger] live[i],
            ) by {
                assert(live[i] == p.shared.idle[i + p.shared.idle.len() - live.len()]);
            }
            if next_idle(p.shared, now) is Some {
                assert(live[0] != lock);
                assert(shared_inv(after));
                let q = with_shared(p, after);
                lemma_served_leaves(
                    after_waiter(after_serve(q, to, next_idle(p.shared, now)->0)),
                    now,
                    lock,
                );
            }
        }
    }
}

/// Nothing that is shared changes with the timers that are left.
pub proof fn lemma_last_timers_shared<T, W>(p: PoolView<T, W>, timers: Seq<TimerEntry<Timer>>)
    ensures
        after_last_timers(p, timers).shared == p.shared,
    decreases timers.len(),
{
    if timers.len() > 0 {
        lemma_last_timers_shared(p, timers.drop_last());
    }
}

/// The manager leaves a resource that is in use alone: nobody else gets hold of
/// it, and it is not disposed of.
pub proof fn law_used_is_left_alone<T, W, R: Fn(T, ResourceInfo) -> (T, bool)>(
    p: PoolView<T, W>,
    hook: Option<R>,
    now: u128,
    post: PoolView<T, W>,
    rest: Rest,
    lock: ResourceLock,
)
    requires
        pool_inv(p),
        held(p.shared.cells, lock),
        p.shared.cells.len() + p.mgr.timers.len() <= usize::MAX,
        round(p, hook, now, post, rest),
    ensures
        held(post.shared.cells, lock),
{
    let on_time = choose|on_time: PoolView<T, W>| #[trigger]
        expiry(p, hook, now, on_time) && pool_inv(on_time) && {
            let after = after_waiters(after_inbox(after_news(on_time)), now);
            &&& pool_inv(after)
            &&& post == after_round(after)
            &&& rest == rest_after(after, next_check(on_time.mgr.timers))
        };
    let after = after_waiters(after_inbox(after_news(on_time)), now);
    let start = with_mgr(p, ManagerView { timers: remaining(p.mgr.timers, now), ..p.mgr });
    let entries = expired(p.mgr.timers, now);
    law_split(p.mgr.timers, now);
    assert forall|i: int| 0 <= i < entries.len() implies timer_known(
        start,
        (#[trigger] entries[i]).2,
    ) by {
        assert(entries[i] == p.mgr.timers[i]);
        assert(timer_known(p, p.mgr.timers[i].2));
    }
    lemma_timers_leave(start, hook, entries, now, on_time, lock);
    let heard = after_inbox(after_news(on_time));
    let told = with_shared(heard, SharedView { busy: heard.mgr.waiters.len() > 0, ..heard.shared });
    lemma_served_leaves(told, now, lock);
    if after.state is Shutdown {
        lemma_evictions(after.shared, after.mgr.repo);
        assert(held(after_evictions(after.shared, after.mgr.repo).cells, lock));
    }
    let checked = after_check(after);
    lemma_last_timers_shared(checked, checked.mgr.timers);
    lemma_dismiss(after_last_timers(checked, checked.mgr.timers), checked.mgr.waiters);
}

/// A pool is in use as long as there is a handle to it. A request is one.
pub proof fn law_in_use_while_requested<T, W>(p: PoolView<T, W>)
    requires
        0 < p.handles < usize::MAX,
    ensures
        ({
            let requested = PoolView { handles: (p.handles + 1) as usize, ..p };
            after_drop_handle(requested) == p
        }),
{
}

/// Check that the number of resources is what a pool reports.
pub open spec fn counted<T>(s: SharedView<T>) -> bool {
    s.count == allocated(s.cells)
}

/// A resource is counted when its creation starts.
pub proof fn law_created_is_counted<T>(s: SharedView<T>)
    requires
        counted(s),
        s.count < usize::MAX,
    ensures
        counted(after_try_create(s)),
{
    lemma_allocated_push(s.cells, Cell::Held);
}

/// A resource that is returned is counted if and only if it is kept.
pub proof fn law_returned_is_counted<T>(
    s: SharedView<T>,
    guard: Access<T>,
    is_kept: bool,
    now: u128,
)
    requires
        counted(s),
        held(s.cells, guard.lock),
        guard.value is Some,
    ensures
        counted(after_return(s, guard, is_kept, now)),
{
    let after = after_return(s, guard, is_kept, now);
    lemma_allocated_update(s.cells, guard.lock.id(), after.cells[guard.lock.id()]);
    assert(after.cells =~= s.cells.update(guard.lock.id(), after.cells[guard.lock.id()]));
}

/// A resource stays counted when it is handed out.
pub proof fn law_handed_out_is_counted<T>(s: SharedView<T>)
    requires
        counted(s),
        shared_inv(s),
    ensures
        counted(after_acquire(s)),
{
    let live = live_idle(s.idle, s.cells);
    lemma_live_idle(s.idle, s.cells);
    if live.len() > 0 {
        assert(live[0] == s.idle[s.idle.len() - live.len()]);
        lemma_allocated_update(s.cells, live[0].id(), Cell::Held);
    }
}

/// When the pool is emptied, a resource that is not in use is no longer counted.
pub proof fn law_evicted_is_not_counted<T>(s: SharedView<T>, lock: ResourceLock)
    requires
        counted(s),
        known(s.cells, lock),
        !vacant(s.cells, lock),
    ensures
        counted(after_evict(s, lock)),
{
    if !held(s.cells, lock) {
        let guard = guard_at(s.cells, lock);
        let cell = Cell::Free(guard.info, None::<T>);
        assert(after_evict(s, lock).cells =~= s.cells.update(lock.id(), cell));
        lemma_allocated_update(s.cells, lock.id(), cell);
    }
}

/// A resource stays counted when the manager moves it to a new lock.
pub proof fn law_moved_is_counted<T, W>(p: PoolView<T, W>, lock: ResourceLock)
    requires
        counted(p.shared),
        known(p.shared.cells, lock),
        ready(p.shared.cells, lock),
    ensures
        counted(after_manager_detach(p, lock).shared),
{
    let guard = guard_at(p.shared.cells, lock);
    let left = p.shared.cells.update(lock.id(), Cell::Free(guard.info, None::<T>));
    assert(after_manager_detach(p, lock).shared.cells =~= left.push(Cell::Held));
    lemma_allocated_update(p.shared.cells, lock.id(), Cell::Free(guard.info, None::<T>));
    lemma_allocated_push(left, Cell::Held);
}

} // verus!
