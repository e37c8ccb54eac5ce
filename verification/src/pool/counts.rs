//! The number of resources of a pool.

use vstd::prelude::*;

use crate::dropshot::{attempt, taken_by_cancel, Attempt};
use crate::pool::acquire::{
    after_failure, after_reject, completed, from_guard, from_init, progress, request_dropped,
    AcquireView, Done,
};
use crate::pool::model::{
    after_ask_drain, after_check, after_drop_handle, after_evict, after_evictions, after_expire,
    after_idle, after_inbox, after_look, after_manager_detach, after_news, after_note,
    after_requests, after_round, after_serve, after_skip, after_start_drain, after_stop_drain,
    after_try_create, after_try_wait, after_verify_or_dispose, after_waiter, can_create, detached,
    expiry, idle_offer, idle_resource, lemma_after_idle, lemma_after_skip, lemma_live_idle,
    overdue, pool_inv, round, served, timer_expires, timer_known, timers_expire, waiters_served,
    with_mgr, with_shared, Access, ManagerView, PoolView, Register, Resolve, Rest, Timer,
};
use crate::pool::laws::lemma_stop_leaves;
use crate::resource::info::ResourceInfo;
use crate::resource::lock::{
    allocated, held, known, lemma_allocated_len, lemma_allocated_push, lemma_allocated_update,
    ready, Cell, GuardView, ResourceGuard, ResourceLock,
};
use crate::resource::operation::ResourceResolve;
use crate::shared::{
    after_acquire, after_dispose, after_keep, after_return, fresh_shared, guard_at, hook_says,
    live_idle, may_keep, next_idle, released, returned, shared_inv, SharedView,
};
use crate::timers::{expired, law_split, remaining, TimerEntry};
use crate::wait::arrives;

verus! {

broadcast use {
    ResourceLock::lemma_at,
    ResourceLock::lemma_same,
    ResourceGuard::lemma_of,
    ResourceGuard::lemma_view,
};

/// Check that the number of resources is what a pool reports, and not higher than
/// it may be. A resource counts from the moment when its creation starts.
pub open spec fn counted<T>(s: SharedView<T>) -> bool {
    &&& s.count == allocated(s.cells)
    &&& s.max_count > 0 ==> s.count <= s.max_count
}

/// Check that what a request has been given is out.
pub open spec fn resolve_held<T>(s: SharedView<T>, resolve: Resolve<T>) -> bool {
    match resolve {
        ResourceResolve::Resource(Some(guard)) => held(s.cells, guard@.lock),
        _ => true,
    }
}

/// Check that what a request has been given, or will find when it looks, is out.
pub open spec fn request_held<T, W>(p: PoolView<T, W>, state: Option<AcquireView<T>>) -> bool {
    match state {
        Some(AcquireView::Resolve(resolve)) => resolve_held(p.shared, resolve),
        Some(AcquireView::Waiting(id)) => {
            &&& attempt(p.waits[id].shot, true) matches Attempt::Ready(Ok(resolve))
                ==> resolve_held(p.shared, resolve)
            &&& taken_by_cancel(p.waits[id].shot) matches Some(resolve) ==> resolve_held(
                p.shared,
                resolve,
            )
        },
        _ => true,
    }
}

/// A new pool has no resources.
pub proof fn law_new_pool_is_counted<T>(
    min_count: usize,
    max_count: usize,
    max_waiters: Option<usize>,
    idle_timeout: Option<u128>,
)
    ensures
        counted(fresh_shared::<T>(min_count, max_count, max_waiters, idle_timeout)),
{
}

/// A resource is counted when its creation starts. It starts if and only if there
/// may be another resource, and then the number grows by one.
pub proof fn law_created_is_counted<T>(s: SharedView<T>)
    requires
        counted(s),
        s.cells.len() < usize::MAX,
    ensures
        counted(after_try_create(s)),
        can_create(s) <==> s.max_count == 0 || s.count < s.max_count,
        !can_create(s) ==> after_try_create(s) == s,
        can_create(s) ==> after_try_create(s).count == s.count + 1 && after_try_create(s).cells
            == s.cells.push(Cell::Held),
{
    lemma_allocated_push(s.cells, Cell::Held);
    lemma_allocated_len(s.cells);
}

/// A resource that is disposed of is no longer counted.
pub proof fn law_disposed_is_not_counted<T>(s: SharedView<T>, guard: Access<T>)
    requires
        counted(s),
        held(s.cells, guard.lock),
    ensures
        counted(after_dispose(s, guard)),
        after_dispose(s, guard).count == s.count - 1,
{
    lemma_allocated_update(s.cells, guard.lock.id(), Cell::Free(guard.info, None));
}

/// A resource that is returned is counted if and only if it is kept.
pub proof fn law_returned_is_counted<T, R: Fn(T, ResourceInfo) -> (T, bool)>(
    s: SharedView<T>,
    hook: Option<R>,
    guard: Access<T>,
    now: u128,
    post: SharedView<T>,
)
    requires
        counted(s),
        held(s.cells, guard.lock),
        released(s, hook, guard, now, post),
    ensures
        counted(post),
        ready(post.cells, guard.lock) ==> post.count == s.count,
        !ready(post.cells, guard.lock) ==> post.count == s.count - 1,
        post.max_count == s.max_count,
        post.cells.len() == s.cells.len(),
        shared_inv(s) ==> shared_inv(post),
{
    let back = returned(guard, now);
    if may_keep(s, back) {
        let result = choose|result: (T, bool)| #[trigger]
            hook_says(hook, back.value->0, back.info, result) && post == after_return(
                s,
                GuardView { value: Some(result.0), ..back },
                result.1,
                now,
            );
        let changed = GuardView { value: Some(result.0), ..back };
        if result.1 {
            assert(post == after_keep(s, changed, now));
            lemma_allocated_update(s.cells, guard.lock.id(), post.cells[guard.lock.id()]);
            assert(post.cells =~= s.cells.update(
                guard.lock.id(),
                post.cells[guard.lock.id()],
            ));
        } else {
            assert(post == after_dispose(s, changed));
            law_disposed_is_not_counted(s, changed);
        }
    } else {
        law_disposed_is_not_counted(s, back);
    }
}

/// A resource on which work failed, such as its creation, is no longer counted.
/// The manager learns of it, and another may be created in its place.
pub proof fn law_failed_is_not_counted<T, W>(p: PoolView<T, W>, guard: Access<T>)
    requires
        counted(p.shared),
        held(p.shared.cells, guard.lock),
    ensures
        counted(after_failure(p, guard).shared),
        after_failure(p, guard).shared.count == p.shared.count - 1,
        after_failure(p, guard).shared.notified,
        can_create(after_failure(p, guard).shared),
{
    law_disposed_is_not_counted(p.shared, guard);
}

/// A resource stays counted when it is handed out.
pub proof fn law_handed_out_is_counted<T>(s: SharedView<T>)
    requires
        counted(s),
        shared_inv(s),
    ensures
        counted(after_acquire(s)),
        after_acquire(s).count == s.count,
        shared_inv(after_acquire(s)),
        next_idle(s) is Some ==> held(after_acquire(s).cells, next_idle(s)->0.lock),
{
    let live = live_idle(s.idle, s.cells);
    lemma_live_idle(s.idle, s.cells);
    assert forall|i: int| 0 <= i < live.len() implies known(s.cells, #[trigger] live[i]) by {
        assert(live[i] == s.idle[i + s.idle.len() - live.len()]);
    }
    if live.len() > 0 {
        lemma_allocated_update(s.cells, live[0].id(), Cell::Held);
    }
}

/// When the pool is emptied, a resource that is not in use is no longer counted. A
/// lock that guards nothing any more changes nothing.
pub proof fn law_evicted_is_not_counted<T>(s: SharedView<T>, lock: ResourceLock)
    requires
        counted(s),
        known(s.cells, lock),
    ensures
        counted(after_evict(s, lock)),
        ready(s.cells, lock) ==> after_evict(s, lock).count == s.count - 1,
        !ready(s.cells, lock) ==> after_evict(s, lock) == s,
{
    if ready(s.cells, lock) {
        let guard = guard_at(s.cells, lock);
        let cell = Cell::Free(guard.info, None::<T>);
        assert(after_evict(s, lock).cells =~= s.cells.update(lock.id(), cell));
        lemma_allocated_update(s.cells, lock.id(), cell);
    }
}

/// A resource stays counted when the manager moves it to a new lock.
pub proof fn law_moved_is_counted<T, W>(p: PoolView<T, W>, lock: ResourceLock)
    requires
        counted(p.shared),
        known(p.shared.cells, lock),
        ready(p.shared.cells, lock),
    ensures
        counted(after_manager_detach(p, lock).shared),
{
    let guard = guard_at(p.shared.cells, lock);
    let left = p.shared.cells.update(lock.id(), Cell::Free(guard.info, None::<T>));
    assert(after_manager_detach(p, lock).shared.cells =~= left.push(Cell::Held));
    lemma_allocated_update(p.shared.cells, lock.id(), Cell::Free(guard.info, None::<T>));
    lemma_allocated_push(left, Cell::Held);
}

/// Nothing that is not about a resource changes the number of resources.
pub proof fn law_others_leave_count<T, W>(
    p: PoolView<T, W>,
    time: u128,
    id: int,
    waker: W,
    shutdown: bool,
)
    requires
        counted(p.shared),
    ensures
        counted(after_try_wait(p, time).shared),
        counted(after_ask_drain(p, time).shared),
        counted(after_look(p, id, waker).shared),
        counted(after_drop_handle(p).shared),
        counted(after_start_drain(p, shutdown).shared),
        counted(after_stop_drain(p).shared),
{
}

/// A timer that has expired leaves the number of resources right.
pub proof fn law_timer_keeps_count<T, W, R: Fn(T, ResourceInfo) -> (T, bool)>(
    p: PoolView<T, W>,
    hook: Option<R>,
    entry: TimerEntry<Timer>,
    now: u128,
    post: PoolView<T, W>,
)
    requires
        counted(p.shared),
        timer_known(p, entry.2),
        p.shared.cells.len() < usize::MAX,
        timer_expires(p, hook, entry, now, post),
    ensures
        counted(post.shared),
        p.shared.cells.len() <= post.shared.cells.len() <= p.shared.cells.len() + 1,
        post.shared.max_count == p.shared.max_count,
        p.waits.len() == post.waits.len(),
        p.drains.len() == post.drains.len(),
{
    if entry.2 is Verify {
        let about = entry.2->Verify_0;
        if ready(p.shared.cells, about) {
            let guard = detached(p.shared, about);
            let moved = after_manager_detach(p, about);
            law_moved_is_counted(p, about);
            assert(held(moved.shared.cells, guard.lock));
            if guard.info.verify_at == Some(entry.0) {
                assert(post == after_verify_or_dispose(moved, guard));
                law_disposed_is_not_counted(moved.shared, guard);
            } else {
                let noted = with_mgr(moved, after_note(moved.mgr, guard.lock));
                law_returned_is_counted(noted.shared, hook, guard, now, post.shared);
            }
        }
    }
}

proof fn lemma_timers_keep_count<T, W, R: Fn(T, ResourceInfo) -> (T, bool)>(
    p: PoolView<T, W>,
    hook: Option<R>,
    entries: Seq<TimerEntry<Timer>>,
    now: u128,
    post: PoolView<T, W>,
)
    requires
        counted(p.shared),
        timers_expire(p, hook, entries, now, post),
        forall|i: int| 0 <= i < entries.len() ==> timer_known(p, (#[trigger] entries[i]).2),
        p.shared.cells.len() + entries.len() <= usize::MAX,
    ensures
        counted(post.shared),
        p.shared.cells.len() <= post.shared.cells.len() <= p.shared.cells.len() + entries.len(),
        post.shared.max_count == p.shared.max_count,
        p.waits.len() == post.waits.len(),
        p.drains.len() == post.drains.len(),
    decreases entries.len(),
{
    if entries.len() > 0 {
        let rest = entries.drop_last();
        let mid = choose|mid: PoolView<T, W>|
            timers_expire(p, hook, rest, now, mid) && #[trigger] timer_expires(
                mid,
                hook,
                entries.last(),
                now,
                post,
            );
        assert forall|i: int| 0 <= i < rest.len() implies timer_known(
            p,
            (#[trigger] rest[i]).2,
        ) by {
            assert(rest[i] == entries[i]);
        }
        lemma_timers_keep_count(p, hook, rest, now, mid);
        assert(timer_known(p, entries[entries.len() - 1].2));
        assert(timer_known(mid, entries.last().2));
        law_timer_keeps_count(mid, hook, entries.last(), now, post);
    }
}

proof fn lemma_requests_keep_count<T, W>(p: PoolView<T, W>, registers: Seq<Register>)
    ensures
        ({
            let s = after_requests(p, registers).shared;
            s == (SharedView { notified: s.notified, ..p.shared })
        }),
    decreases registers.len(),
{
    if registers.len() > 0 {
        lemma_requests_keep_count(p, registers.drop_last());
    }
}

proof fn lemma_served_keeps_count<T, W>(p: PoolView<T, W>, spare: Option<Access<T>>)
    requires
        counted(p.shared),
        shared_inv(p.shared),
        spare is Some ==> held(p.shared.cells, spare->0.lock),
    ensures
        counted(served(p, spare).0.shared),
        shared_inv(served(p, spare).0.shared),
        served(p, spare).0.shared.max_count == p.shared.max_count,
        served(p, spare).1 is Some ==> held(
            served(p, spare).0.shared.cells,
            served(p, spare).1->0.lock,
        ),
    decreases p.mgr.waiters.len(),
{
    if p.mgr.waiters.len() > 0 {
        let to = p.mgr.waiters[0];
        if !p.waits[to.id()].open {
            lemma_served_keeps_count(after_waiter(p), spare);
        } else if spare is Some {
            lemma_served_keeps_count(
                after_waiter(after_serve(p, to, spare->0)),
                if arrives(p.waits[to.id()]) {
                    None
                } else {
                    spare
                },
            );
        } else {
            law_handed_out_is_counted(p.shared);
            if next_idle(p.shared) is Some {
                let q = with_shared(p, after_acquire(p.shared));
                lemma_served_keeps_count(
                    after_waiter(after_serve(q, to, next_idle(p.shared)->0)),
                    if arrives(p.waits[to.id()]) {
                        None
                    } else {
                        next_idle(p.shared)
                    },
                );
            }
        }
    }
}

proof fn lemma_evictions_keep_count<T>(s: SharedView<T>, locks: Seq<ResourceLock>)
    requires
        counted(s),
        forall|i: int| 0 <= i < locks.len() ==> known(s.cells, #[trigger] locks[i]),
    ensures
        counted(after_evictions(s, locks)),
        after_evictions(s, locks).max_count == s.max_count,
        after_evictions(s, locks).cells.len() == s.cells.len(),
    decreases locks.len(),
{
    if locks.len() > 0 {
        let rest = locks.drop_last();
        assert forall|i: int| 0 <= i < rest.len() implies known(s.cells, #[trigger] rest[i]) by {
            assert(rest[i] == locks[i]);
        }
        lemma_evictions_keep_count(s, rest);
        assert(known(s.cells, locks[locks.len() - 1]));
        law_evicted_is_not_counted(after_evictions(s, rest), locks.last());
    }
}

/// A whole round of the manager leaves the number of resources right, and within
/// its limit.
pub proof fn law_manager_keeps_count<T, W, R: Fn(T, ResourceInfo) -> (T, bool)>(
    p: PoolView<T, W>,
    hook: Option<R>,
    now: u128,
    post: PoolView<T, W>,
    rest: Rest,
)
    requires
        pool_inv(p),
        counted(p.shared),
        p.shared.cells.len() + p.mgr.timers.len() <= usize::MAX,
        round(p, hook, now, post, rest),
    ensures
        counted(post.shared),
        post.shared.max_count == p.shared.max_count,
{
    let (on_time, after) = choose|on_time: PoolView<T, W>, after: PoolView<T, W>| #[trigger]
        expiry(p, hook, now, on_time) && #[trigger] waiters_served(
            after_inbox(after_news(on_time)),
            hook,
            now,
            after,
        ) && pool_inv(on_time) && pool_inv(after) && post == after_round(after) && rest
            == crate::pool::model::rest_after(after);
    let start = with_mgr(p, ManagerView { timers: remaining(p.mgr.timers, now), ..p.mgr });
    let entries = expired(p.mgr.timers, now);
    law_split(p.mgr.timers, now);
    assert forall|i: int| 0 <= i < entries.len() implies timer_known(
        start,
        (#[trigger] entries[i]).2,
    ) by {
        assert(entries[i] == p.mgr.timers[i]);
        assert(timer_known(p, p.mgr.timers[i].2));
    }
    lemma_timers_keep_count(start, hook, entries, now, on_time);
    let news = after_news(on_time);
    let told = after_inbox(news);
    lemma_requests_keep_count(PoolView { registers: Seq::empty(), ..news }, news.registers);
    lemma_served_keeps_count(told, None);
    if told.mgr.waiters.len() > 0 && (told.shared.idle.len() > 0 || can_create(told.shared)) {
        let (fed, spare) = served(told, None);
        if spare is Some {
            law_returned_is_counted(fed.shared, hook, spare->0, now, after.shared);
        }
    }
    lemma_evictions_keep_count(after.shared, after.mgr.repo);
    lemma_stop_leaves(after_check(after));
}

proof fn lemma_skip_keeps_count<T>(s: SharedView<T>, now: u128)
    requires
        counted(s),
        shared_inv(s),
    ensures
        counted(after_skip(s, now)),
        after_skip(s, now).max_count == s.max_count,
    decreases s.idle.len(),
{
    lemma_live_idle(s.idle, s.cells);
    if next_idle(s) is Some && overdue(next_idle(s)->0, now) {
        law_handed_out_is_counted(s);
        let guard = next_idle(s)->0;
        law_disposed_is_not_counted(
            after_acquire(s),
            returned(
                GuardView { info: ResourceInfo { expired: true, ..guard.info }, ..guard },
                now,
            ),
        );
        lemma_skip_keeps_count(after_expire(s, now), now);
    }
}

/// A request that looks among the resources that were returned leaves the number
/// of resources right, and within its limit.
pub proof fn law_looked_for_keeps_count<T>(s: SharedView<T>, verify: bool, now: u128)
    requires
        counted(s),
        shared_inv(s),
    ensures
        counted(after_idle(s, verify, now)),
        after_idle(s, verify, now).max_count == s.max_count,
        shared_inv(after_idle(s, verify, now)),
        after_idle(s, verify, now).cells.len() == s.cells.len(),
        resolve_held(after_idle(s, verify, now), idle_resource(s, verify, now)),
{
    lemma_skip_keeps_count(s, now);
    lemma_after_skip(s, now);
    lemma_after_idle(s, verify, now);
    law_handed_out_is_counted(idle_offer(s, verify, now));
}

proof fn lemma_init_keeps_count<T, W>(p: PoolView<T, W>, start: u128, now: u128, waker: W)
    requires
        counted(p.shared),
        shared_inv(p.shared),
        p.shared.cells.len() < usize::MAX,
    ensures
        counted(from_init(p, start, now, waker).pool.shared),
        from_init(p, start, now, waker).pool.shared.max_count == p.shared.max_count,
    decreases p.shared.idle.len(),
{
    lemma_after_idle(p.shared, p.verify, now);
    law_looked_for_keeps_count(p.shared, p.verify, now);
    let q = with_shared(p, after_idle(p.shared, p.verify, now));
    match idle_resource(p.shared, p.verify, now) {
        ResourceResolve::Resource(Some(guard)) => {
            if guard@.info.expired {
                law_disposed_is_not_counted(q.shared, returned(guard@, now));
                lemma_init_keeps_count(after_reject(q, guard@, now), start, now, waker);
            }
        },
        ResourceResolve::Future(_) => {},
        ResourceResolve::Resource(None) => {
            law_created_is_counted(q.shared);
        },
    }
}

/// A request that finds a resource leaves the number of resources right, whether
/// the resource is granted or has expired.
pub proof fn law_found_keeps_count<T, W>(
    p: PoolView<T, W>,
    guard: Access<T>,
    start: u128,
    now: u128,
    waker: W,
)
    requires
        counted(p.shared),
        shared_inv(p.shared),
        held(p.shared.cells, guard.lock),
        p.shared.cells.len() < usize::MAX,
    ensures
        counted(from_guard(p, guard, start, now, waker).pool.shared),
        from_guard(p, guard, start, now, waker).pool.shared.max_count == p.shared.max_count,
{
    law_disposed_is_not_counted(p.shared, returned(guard, now));
    if guard.info.expired {
        lemma_init_keeps_count(after_reject(p, guard, now), start, now, waker);
    }
}

/// A request that is taken further leaves the number of resources right, and within
/// its limit.
pub proof fn law_request_keeps_count<T, W>(
    p: PoolView<T, W>,
    state: Option<AcquireView<T>>,
    start: u128,
    now: u128,
    waker: W,
)
    requires
        counted(p.shared),
        shared_inv(p.shared),
        request_held(p, state),
        p.shared.cells.len() < usize::MAX,
    ensures
        counted(progress(p, state, start, now, waker).pool.shared),
        progress(p, state, start, now, waker).pool.shared.max_count == p.shared.max_count,
{
    lemma_init_keeps_count(p, start, now, waker);
    match state {
        Some(AcquireView::Resolve(ResourceResolve::Resource(Some(guard)))) => {
            law_found_keeps_count(p, guard@, start, now, waker);
        },
        Some(AcquireView::Waiting(id)) => {
            let q = after_look(p, id, waker);
            lemma_init_keeps_count(q, start, now, waker);
            if let Attempt::Ready(Ok(ResourceResolve::Resource(Some(guard)))) = attempt(
                p.waits[id].shot,
                true,
            ) {
                law_found_keeps_count(q, guard@, start, now, waker);
            }
        },
        _ => {},
    }
}

/// Work on a resource that is completed leaves the number of resources right, and
/// within its limit.
pub proof fn law_completed_keeps_count<T, W>(
    p: PoolView<T, W>,
    guard: Access<T>,
    done: Done<T>,
    start: u128,
    now: u128,
    waker: W,
)
    requires
        counted(p.shared),
        shared_inv(p.shared),
        held(p.shared.cells, guard.lock),
        p.shared.cells.len() < usize::MAX,
    ensures
        ({
            let post = from_guard(p, completed(guard, done, now), start, now, waker).pool.shared;
            counted(post) && post.max_count == p.shared.max_count
        }),
{
    law_found_keeps_count(p, completed(guard, done, now), start, now, waker);
}

/// A request that is given up leaves the number of resources right, and within its
/// limit.
pub proof fn law_given_up_keeps_count<T, W, R: Fn(T, ResourceInfo) -> (T, bool)>(
    p: PoolView<T, W>,
    hook: Option<R>,
    state: Option<AcquireView<T>>,
    now: u128,
    post: PoolView<T, W>,
)
    requires
        counted(p.shared),
        request_held(p, state),
        request_dropped(p, hook, state, now, post),
    ensures
        counted(post.shared),
        post.shared.max_count == p.shared.max_count,
{
    match state {
        Some(AcquireView::Resolve(ResourceResolve::Resource(Some(guard)))) => {
            law_returned_is_counted(p.shared, hook, guard@, now, post.shared);
        },
        Some(AcquireView::Waiting(id)) => {
            if let Some(ResourceResolve::Resource(Some(guard))) = taken_by_cancel(
                p.waits[id].shot,
            ) {
                law_returned_is_counted(p.shared, hook, guard@, now, post.shared);
            }
        },
        _ => {},
    }
}

} // verus!
