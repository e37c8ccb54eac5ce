//! How a pool is closed down, and what the manager remembers.

use vstd::prelude::*;

use crate::arp::laws::{
    law_used_is_left_alone, lemma_events_keep, lemma_evictions, lemma_last_timers_shared,
    lemma_timers_leave,
};
use crate::arp::model::{
    after_ask_shutdown, after_check, after_dismiss, after_drop_handle, after_inbox,
    after_last_timers, after_manager_detach, after_news, after_requests, after_serve,
    after_shutdown, after_waiter, after_waiters, detached, is_emptied, pool_inv, round, served, timer_expires, timer_known,
    timers_expire, with_mgr, with_shared, ManagerView, PoolView, Register, Timer,
};
use crate::arp::rounds::{is_set, lemma_all_served, lemma_closed, lemma_parts, lemma_told_range};
use crate::arp::shared::{after_acquire, next_idle, SharedView};
use crate::dropshot::{attempt, Attempt, Canceled};
use crate::pool::model::Rest;
use crate::resource::info::ResourceInfo;
use crate::resource::lock::{held, known, vacant, ResourceGuard, ResourceLock};
use crate::resource::repo::{guarding, lemma_filter, other_than, with_lock};
use crate::shared::SharedEvent;
use crate::timers::{expired, law_split, remaining, TimerEntry};
use crate::wait::{after_cancel, arrives, awaited, wait_inv, WaitResponder};

verus! {

broadcast use {
    ResourceLock::lemma_at,
    ResourceLock::lemma_same,
    ResourceGuard::lemma_of,
    ResourceGuard::lemma_view,
};

/// A pool is closed down when its last handle is given up, and the manager learns of it.
/// One that has stopped stays so.
pub proof fn law_closed_down_with_its_last_handle<T, W>(p: PoolView<T, W>)
    ensures
        !(p.state is Stopped) ==> after_shutdown(p).state is Shutdown && after_shutdown(
            p,
        ).shared.notified,
        p.state is Stopped ==> after_shutdown(p) == p,
        after_shutdown(p) == (PoolView {
            state: after_shutdown(p).state,
            shared: SharedView { notified: after_shutdown(p).shared.notified, ..p.shared },
            ..p
        }),
        p.handles == 1 ==> after_drop_handle(p) == after_shutdown(PoolView { handles: 0, ..p }),
        p.handles > 1 ==> after_drop_handle(p) == (PoolView {
            handles: (p.handles - 1) as usize,
            ..p
        }),
{
}

proof fn lemma_expired_shutdown<T, W, R: Fn(T, ResourceInfo) -> (T, bool)>(
    p: PoolView<T, W>,
    hook: Option<R>,
    entries: Seq<TimerEntry<Timer>>,
    now: u128,
    post: PoolView<T, W>,
    to: WaitResponder,
)
    requires
        timers_expire(p, hook, entries, now, post),
        awaited(p.shutdowns, to),
        forall|i: int| 0 <= i < entries.len() ==> timer_known(p, (#[trigger] entries[i]).2),
    ensures
        post.shutdowns.len() == p.shutdowns.len(),
        post.waits.len() == p.waits.len(),
        post.shared.cells.len() >= p.shared.cells.len(),
        (exists|i: int|
            0 <= i < entries.len() && (#[trigger] entries[i]).2 == Timer::Shutdown(to))
            ==> post.shutdowns[to.id()] == after_cancel(p.shutdowns[to.id()]),
    decreases entries.len(),
{
    if entries.len() > 0 {
        let rest = entries.drop_last();
        let entry = entries.last();
        let mid = choose|mid: PoolView<T, W>|
            timers_expire(p, hook, rest, now, mid) && #[trigger] timer_expires(
                mid,
                hook,
                entry,
                now,
                post,
            );
        assert forall|i: int| 0 <= i < rest.len() implies timer_known(
            p,
            (#[trigger] rest[i]).2,
        ) by {
            assert(rest[i] == entries[i]);
        }
        lemma_expired_shutdown(p, hook, rest, now, mid, to);
        lemma_untouched_shutdown(p, hook, rest, now, mid, to);
        assert(timer_known(p, entries[entries.len() - 1].2));
        if exists|i: int| 0 <= i < entries.len() && (#[trigger] entries[i]).2 == Timer::Shutdown(to) {
            let i = choose|i: int|
                0 <= i < entries.len() && (#[trigger] entries[i]).2 == Timer::Shutdown(to);
            if i < rest.len() {
                assert(rest[i].2 == Timer::Shutdown(to));
                assert(mid.shutdowns[to.id()] == after_cancel(p.shutdowns[to.id()]));
            }
        }
    }
}

proof fn lemma_untouched_shutdown<T, W, R: Fn(T, ResourceInfo) -> (T, bool)>(
    p: PoolView<T, W>,
    hook: Option<R>,
    entries: Seq<TimerEntry<Timer>>,
    now: u128,
    post: PoolView<T, W>,
    to: WaitResponder,
)
    requires
        timers_expire(p, hook, entries, now, post),
        awaited(p.shutdowns, to),
        forall|i: int| 0 <= i < entries.len() ==> timer_known(p, (#[trigger] entries[i]).2),
    ensures
        post.shutdowns.len() == p.shutdowns.len(),
        post.waits.len() == p.waits.len(),
        post.shared.cells.len() >= p.shared.cells.len(),
        post.shutdowns[to.id()] == p.shutdowns[to.id()] || post.shutdowns[to.id()] == after_cancel(
            p.shutdowns[to.id()],
        ),
    decreases entries.len(),
{
    if entries.len() > 0 {
        let rest = entries.drop_last();
        let entry = entries.last();
        let mid = choose|mid: PoolView<T, W>|
            timers_expire(p, hook, rest, now, mid) && #[trigger] timer_expires(
                mid,
                hook,
                entry,
                now,
                post,
            );
        assert forall|i: int| 0 <= i < rest.len() implies timer_known(
            p,
            (#[trigger] rest[i]).2,
        ) by {
            assert(rest[i] == entries[i]);
        }
        lemma_untouched_shutdown(p, hook, rest, now, mid, to);
        assert(timer_known(p, entries[entries.len() - 1].2));
    }
}

proof fn lemma_requests_repo(m: ManagerView, timeout: Option<u128>, registers: Seq<Register>)
    ensures
        after_requests(m, timeout, registers).repo == m.repo,
    decreases registers.len(),
{
    if registers.len() > 0 {
        lemma_requests_repo(m, timeout, registers.drop_last());
    }
}

/// Whoever waits for the pool to be empty longer than was said is told that it is not, in
/// the next round, even if it is by then.
pub proof fn law_late_shutdown_is_called_off<T, W, R: Fn(T, ResourceInfo) -> (T, bool)>(
    p: PoolView<T, W>,
    hook: Option<R>,
    now: u128,
    post: PoolView<T, W>,
    rest: Rest,
    to: WaitResponder,
    at: u128,
)
    requires
        pool_inv(p),
        awaited(p.shutdowns, to),
        wait_inv(p.shutdowns[to.id()]),
        p.shutdowns[to.id()].open,
        is_set(p.mgr.timers, at, Timer::Shutdown(to)),
        at < now,
        round(p, hook, now, post, rest),
    ensures
        attempt(post.shutdowns[to.id()].shot, true) == Attempt::<bool>::Ready(Err(Canceled)),
{
    let id = to.id();
    let on_time = lemma_parts(p, hook, now, post, rest);
    let number = choose|number: usize| #[trigger]
        p.mgr.timers.contains((at, number, Timer::Shutdown(to)));
    let i = choose|i: int|
        0 <= i < p.mgr.timers.len() && p.mgr.timers[i] == (at, number, Timer::Shutdown(to));
    let start = with_mgr(p, ManagerView { timers: remaining(p.mgr.timers, now), ..p.mgr });
    let entries = expired(p.mgr.timers, now);
    law_split(p.mgr.timers, now);
    if i >= entries.len() {
        assert(remaining(p.mgr.timers, now)[i - entries.len()] == p.mgr.timers[i]);
    }
    assert(entries[i] == p.mgr.timers[i]);
    assert forall|j: int| 0 <= j < entries.len() implies timer_known(
        start,
        (#[trigger] entries[j]).2,
    ) by {
        assert(entries[j] == p.mgr.timers[j]);
        assert(timer_known(p, p.mgr.timers[j].2));
    }
    lemma_expired_shutdown(start, hook, entries, now, on_time, to);
    let told = after_inbox(after_news(on_time));
    let busy = with_shared(
        told,
        SharedView { busy: told.mgr.waiters.len() > 0, ..told.shared },
    );
    lemma_all_served(busy, now);
    let after = after_waiters(told, now);
    assert(after.shutdowns == on_time.shutdowns);
    let q = after_check(after);
    if is_emptied(q) {
        assert forall|j: int| 0 <= j < q.mgr.timers.len() implies (
        #[trigger] q.mgr.timers[j].2 matches Timer::Shutdown(other) ==> 0 <= other.id()
            < q.shutdowns.len()) by {
            assert(timer_known(after, after.mgr.timers[j].2));
        }
        lemma_last_shutdown(q, q.mgr.timers, id);
        lemma_dismissed_shutdowns(after_last_timers(q, q.mgr.timers), q.mgr.waiters);
    }
}

proof fn lemma_last_shutdown<T, W>(p: PoolView<T, W>, timers: Seq<TimerEntry<Timer>>, id: int)
    requires
        0 <= id < p.shutdowns.len(),
        !p.shutdowns[id].open,
        forall|j: int|
            0 <= j < timers.len() ==> ((#[trigger] timers[j]).2 matches Timer::Shutdown(other) ==> 0
                <= other.id() < p.shutdowns.len()),
    ensures
        after_last_timers(p, timers).shutdowns[id] == p.shutdowns[id],
        after_last_timers(p, timers).shutdowns.len() == p.shutdowns.len(),
    decreases timers.len(),
{
    if timers.len() > 0 {
        let rest = timers.drop_last();
        assert forall|j: int| 0 <= j < rest.len() implies (
        (#[trigger] rest[j]).2 matches Timer::Shutdown(other) ==> 0 <= other.id() < p.shutdowns.len()) by {
            assert(rest[j] == timers[j]);
        }
        lemma_last_shutdown(p, rest, id);
        assert(timers[timers.len() - 1] == timers.last());
    }
}

proof fn lemma_dismissed_shutdowns<T, W>(p: PoolView<T, W>, waiters: Seq<WaitResponder>)
    ensures
        after_dismiss(p, waiters).shutdowns == p.shutdowns,
    decreases waiters.len(),
{
    if waiters.len() > 0 {
        lemma_dismissed_shutdowns(p, waiters.drop_last());
    }
}

/// When the manager stops, nobody is left waiting: everybody who was in line has been
/// sent a resource, has left, or learns that none will come.
pub proof fn law_nobody_waits_for_a_stopped_pool<T, W, R: Fn(T, ResourceInfo) -> (T, bool)>(
    p: PoolView<T, W>,
    hook: Option<R>,
    now: u128,
    post: PoolView<T, W>,
    rest: Rest,
    i: int,
)
    requires
        pool_inv(p),
        round(p, hook, now, post, rest),
        rest is Stop,
        0 <= i < p.mgr.waiters.len(),
    ensures
        post.state is Stopped,
        post.mgr.waiters.len() == 0,
        post.mgr.timers.len() == 0,
        !arrives(post.waits[p.mgr.waiters[i].id()]),
{
    let on_time = lemma_parts(p, hook, now, post, rest);
    let to = p.mgr.waiters[i];
    let told = lemma_told_range(p, hook, now, on_time);
    assert(told.mgr.waiters[i] == to);
    let busy = with_shared(
        told,
        SharedView { busy: told.mgr.waiters.len() > 0, ..told.shared },
    );
    lemma_all_served(busy, now);
    lemma_closed(busy, now, to.id());
    let after = after_waiters(told, now);
    if after.mgr.waiters == told.mgr.waiters {
        assert(after.mgr.waiters[i] == to);
    } else {
        lemma_in_line_or_closed(busy, now, i);
    }
    let q = after_check(after);
    assert(is_emptied(q));
    assert forall|j: int| 0 <= j < q.mgr.timers.len() implies (
    (#[trigger] q.mgr.timers[j]).2 matches Timer::Waiter(other) ==> 0 <= other.id()
        < q.waits.len()) by {
        assert(timer_known(after, after.mgr.timers[j].2));
    }
    lemma_last_wait(q, q.mgr.timers, to.id());
    let last = after_last_timers(q, q.mgr.timers);
    assert forall|j: int| 0 <= j < q.mgr.waiters.len() implies 0 <= (
    #[trigger] q.mgr.waiters[j]).id() < last.waits.len() by {
        assert(awaited(after.waits, after.mgr.waiters[j]));
    }
    lemma_dismissed_waits(last, q.mgr.waiters, to.id());
    if arrives(after.waits[to.id()]) {
        assert(after.mgr.waiters.contains(to));
    }
}

proof fn lemma_in_line_or_closed<T, W>(p: PoolView<T, W>, now: u128, i: int)
    requires
        0 <= i < p.mgr.waiters.len(),
        forall|j: int|
            0 <= j < p.mgr.waiters.len() ==> 0 <= (#[trigger] p.mgr.waiters[j]).id()
                < p.waits.len(),
    ensures
        ({
            let post = served(p, now);
            ||| post.mgr.waiters.contains(p.mgr.waiters[i])
            ||| !arrives(post.waits[p.mgr.waiters[i].id()])
        }),
    decreases p.mgr.waiters.len(),
{
    let to = p.mgr.waiters[0];
    let tail = p.mgr.waiters.drop_first();
    assert forall|j: int| 0 <= j < tail.len() implies 0 <= (#[trigger] tail[j]).id()
        < p.waits.len() by {
        assert(tail[j] == p.mgr.waiters[j + 1]);
    }
    if i > 0 {
        assert(tail[i - 1] == p.mgr.waiters[i]);
    }
    if arrives(p.waits[to.id()]) && next_idle(p.shared, now) is None {
        assert(served(p, now).mgr.waiters == p.mgr.waiters);
    } else {
        let q = if !arrives(p.waits[to.id()]) {
            after_waiter(p)
        } else {
            after_waiter(
                after_serve(
                    with_shared(p, after_acquire(p.shared)),
                    to,
                    next_idle(p.shared, now)->0,
                ),
            )
        };
        assert(served(p, now) == served(q, now));
        if i > 0 {
            lemma_in_line_or_closed(q, now, i - 1);
        } else {
            assert(!arrives(q.waits[to.id()]));
            lemma_closed(q, now, to.id());
        }
    }
}

proof fn lemma_last_wait<T, W>(p: PoolView<T, W>, timers: Seq<TimerEntry<Timer>>, id: int)
    requires
        0 <= id < p.waits.len(),
        forall|j: int|
            0 <= j < timers.len() ==> ((#[trigger] timers[j]).2 matches Timer::Waiter(other) ==> 0
                <= other.id() < p.waits.len()),
    ensures
        !arrives(p.waits[id]) ==> !arrives(after_last_timers(p, timers).waits[id]),
        after_last_timers(p, timers).waits.len() == p.waits.len(),
        after_last_timers(p, timers).mgr == p.mgr,
    decreases timers.len(),
{
    if timers.len() > 0 {
        let rest = timers.drop_last();
        assert forall|j: int| 0 <= j < rest.len() implies (
        (#[trigger] rest[j]).2 matches Timer::Waiter(other) ==> 0 <= other.id() < p.waits.len()) by {
            assert(rest[j] == timers[j]);
        }
        lemma_last_wait(p, rest, id);
        assert(timers[timers.len() - 1] == timers.last());
    }
}

proof fn lemma_dismissed_waits<T, W>(p: PoolView<T, W>, waiters: Seq<WaitResponder>, id: int)
    requires
        0 <= id < p.waits.len(),
        forall|j: int|
            0 <= j < waiters.len() ==> 0 <= (#[trigger] waiters[j]).id() < p.waits.len(),
    ensures
        after_dismiss(p, waiters).waits.len() == p.waits.len(),
        !arrives(p.waits[id]) || (exists|j: int|
            0 <= j < waiters.len() && (#[trigger] waiters[j]).id() == id) ==> !arrives(
            after_dismiss(p, waiters).waits[id],
        ),
    decreases waiters.len(),
{
    if waiters.len() > 0 {
        let rest = waiters.drop_last();
        assert forall|j: int| 0 <= j < rest.len() implies 0 <= (#[trigger] rest[j]).id()
            < p.waits.len() by {
            assert(rest[j] == waiters[j]);
        }
        lemma_dismissed_waits(p, rest, id);
        assert(0 <= waiters[waiters.len() - 1].id() < p.waits.len());
        if exists|j: int| 0 <= j < waiters.len() && (#[trigger] waiters[j]).id() == id {
            let j = choose|j: int| 0 <= j < waiters.len() && (#[trigger] waiters[j]).id() == id;
            if j < rest.len() {
                assert(rest[j].id() == id);
            }
        }
    }
}

/// A pool that is being closed down has no resource left after a round but those that are in
/// use. It stops when there is none.
pub proof fn law_only_used_ones_are_left<T, W, R: Fn(T, ResourceInfo) -> (T, bool)>(
    p: PoolView<T, W>,
    hook: Option<R>,
    now: u128,
    post: PoolView<T, W>,
    rest: Rest,
    i: int,
)
    requires
        pool_inv(p),
        round(p, hook, now, post, rest),
        post.state is Shutdown,
    ensures
        0 <= i < post.mgr.repo.len() ==> held(post.shared.cells, post.mgr.repo[i]),
        post.mgr.repo.len() > 0,
{
    let on_time = lemma_parts(p, hook, now, post, rest);
    let after = after_waiters(after_inbox(after_news(on_time)), now);
    let q = after_check(after);
    if is_emptied(q) {
        assert(post.state is Stopped);
    }
    lemma_evictions(after.shared, after.mgr.repo);
    if 0 <= i < post.mgr.repo.len() {
        lemma_filter(after.mgr.repo, guarding(post.shared.cells));
        let lock = post.mgr.repo[i];
        assert(after.mgr.repo.contains(lock));
        assert((guarding(post.shared.cells))(lock));
        let j = choose|j: int| 0 <= j < after.mgr.repo.len() && after.mgr.repo[j] == lock;
        assert(known(after.shared.cells, after.mgr.repo[j]));
        if !held(after.shared.cells, after.mgr.repo[j]) {
            assert(vacant(post.shared.cells, after.mgr.repo[j]));
        }
        assert(held(post.shared.cells, lock));
    }
}

proof fn lemma_expired_repo<T, W, R: Fn(T, ResourceInfo) -> (T, bool)>(
    p: PoolView<T, W>,
    hook: Option<R>,
    entries: Seq<TimerEntry<Timer>>,
    now: u128,
    post: PoolView<T, W>,
    lock: ResourceLock,
)
    requires
        timers_expire(p, hook, entries, now, post),
        held(p.shared.cells, lock),
        forall|i: int| 0 <= i < entries.len() ==> timer_known(p, (#[trigger] entries[i]).2),
        p.shared.cells.len() + entries.len() <= usize::MAX,
    ensures
        p.mgr.repo.contains(lock) ==> post.mgr.repo.contains(lock),
        p.shared.events.is_prefix_of(post.shared.events),
    decreases entries.len(),
{
    if entries.len() > 0 {
        let rest = entries.drop_last();
        let entry = entries.last();
        let mid = choose|mid: PoolView<T, W>|
            timers_expire(p, hook, rest, now, mid) && #[trigger] timer_expires(
                mid,
                hook,
                entry,
                now,
                post,
            );
        assert forall|i: int| 0 <= i < rest.len() implies timer_known(
            p,
            (#[trigger] rest[i]).2,
        ) by {
            assert(rest[i] == entries[i]);
        }
        lemma_expired_repo(p, hook, rest, now, mid, lock);
        lemma_timers_leave(p, hook, rest, now, mid, lock);
        if let Timer::Verify(about) = entry.2 {
            if !(mid.shared.cells[about.id()] is Held) && p.mgr.repo.contains(lock) {
                let i = choose|i: int| 0 <= i < mid.mgr.repo.len() && mid.mgr.repo[i] == lock;
                assert((other_than(about))(lock));
                mid.mgr.repo.lemma_filter_contains(other_than(about), i);
                let moved = after_manager_detach(mid, about);
                let next = detached(mid.shared, about).lock;
                let j = choose|j: int| 0 <= j < moved.mgr.repo.len() && moved.mgr.repo[j] == lock;
                assert(with_lock(moved.mgr.repo, next)[j] == lock);
                assert(post.mgr.repo[j] == lock);
            }
        }
    }
}

/// The manager does not forget a resource that is in use, and takes note of every new
/// one.
pub proof fn law_used_is_remembered<T, W, R: Fn(T, ResourceInfo) -> (T, bool)>(
    p: PoolView<T, W>,
    hook: Option<R>,
    now: u128,
    post: PoolView<T, W>,
    rest: Rest,
    lock: ResourceLock,
)
    requires
        pool_inv(p),
        held(p.shared.cells, lock),
        p.mgr.repo.contains(lock) || p.shared.events.contains(SharedEvent::Created(lock)),
        p.shared.cells.len() + p.mgr.timers.len() <= usize::MAX,
        round(p, hook, now, post, rest),
    ensures
        post.mgr.repo.contains(lock),
        rest is Wait,
{
    let on_time = lemma_parts(p, hook, now, post, rest);
    law_used_is_left_alone(p, hook, now, post, rest, lock);
    let start = with_mgr(p, ManagerView { timers: remaining(p.mgr.timers, now), ..p.mgr });
    let entries = expired(p.mgr.timers, now);
    law_split(p.mgr.timers, now);
    assert forall|j: int| 0 <= j < entries.len() implies timer_known(
        start,
        (#[trigger] entries[j]).2,
    ) by {
        assert(entries[j] == p.mgr.timers[j]);
        assert(timer_known(p, p.mgr.timers[j].2));
    }
    lemma_expired_repo(start, hook, entries, now, on_time, lock);
    if p.shared.events.contains(SharedEvent::Created(lock)) {
        let k = choose|k: int|
            0 <= k < p.shared.events.len() && p.shared.events[k] == SharedEvent::Created(lock);
        assert(on_time.shared.events[k] == SharedEvent::Created(lock));
    }
    lemma_events_keep(on_time.mgr, on_time.shared.events, lock);
    let news = after_news(on_time);
    lemma_requests_repo(news.mgr, news.acquire_timeout, news.registers);
    let told = after_inbox(news);
    let busy = with_shared(
        told,
        SharedView { busy: told.mgr.waiters.len() > 0, ..told.shared },
    );
    lemma_all_served(busy, now);
    let after = after_waiters(told, now);
    assert(after.mgr.repo.contains(lock));
    let cells = after_check(after).shared.cells;
    let checked = after_check(after);
    lemma_last_timers_shared(checked, checked.mgr.timers);
    lemma_dismissed_shared(after_last_timers(checked, checked.mgr.timers), checked.mgr.waiters);
    assert(held(cells, lock));
    assert((guarding(cells))(lock));
    let i = choose|i: int| 0 <= i < after.mgr.repo.len() && after.mgr.repo[i] == lock;
    after.mgr.repo.lemma_filter_contains(guarding(cells), i);
    assert(after_check(after).mgr.repo.contains(lock));
}

proof fn lemma_dismissed_shared<T, W>(p: PoolView<T, W>, waiters: Seq<WaitResponder>)
    ensures
        after_dismiss(p, waiters).shared == p.shared,
    decreases waiters.len(),
{
    if waiters.len() > 0 {
        lemma_dismissed_shared(p, waiters.drop_last());
    }
}

/// The manager forgets a lock only if it guards nothing any more. It forgets all of those
/// when the pool is closed or something was disposed of.
pub proof fn law_only_empty_locks_are_forgotten<T, W>(p: PoolView<T, W>, lock: ResourceLock)
    ensures
        after_check(p).mgr.repo.contains(lock) ==> p.mgr.repo.contains(lock),
        p.mgr.repo.contains(lock) && !vacant(after_check(p).shared.cells, lock) ==> after_check(
            p,
        ).mgr.repo.contains(lock),
        (p.state is Shutdown || p.mgr.last_dispose_count != p.shared.dispose_count) && vacant(
            after_check(p).shared.cells,
            lock,
        ) ==> !after_check(p).mgr.repo.contains(lock),
{
    let cells = after_check(p).shared.cells;
    lemma_filter(p.mgr.repo, guarding(cells));
    if p.mgr.repo.contains(lock) {
        let i = choose|i: int| 0 <= i < p.mgr.repo.len() && p.mgr.repo[i] == lock;
        if !vacant(cells, lock) {
            assert((guarding(cells))(lock));
            p.mgr.repo.lemma_filter_contains(guarding(cells), i);
        }
    }
    if after_check(p).mgr.repo.contains(lock) {
        let repo = after_check(p).mgr.repo;
        let i = choose|i: int| 0 <= i < repo.len() && repo[i] == lock;
        if p.state is Shutdown || p.mgr.last_dispose_count != p.shared.dispose_count {
            assert((guarding(cells))(p.mgr.repo.filter(guarding(cells))[i]));
        }
    }
}

/// Whoever asks to learn when the pool is closed down is put down, with the time, behind
/// those who asked for something before. Nothing else changes.
pub proof fn law_shutdown_request_is_put_down<T, W>(p: PoolView<T, W>, expire: u128)
    requires
        p.shutdowns.len() < usize::MAX,
    ensures
        ({
            let post = after_ask_shutdown(p, expire);
            let to = WaitResponder::at(p.shutdowns.len() as usize);
            &&& post == (PoolView {
                registers: p.registers.push(Register::Shutdown(expire, to)),
                shutdowns: post.shutdowns,
                ..p
            })
            &&& post.shutdowns.len() == p.shutdowns.len() + 1
            &&& post.shutdowns.drop_last() == p.shutdowns
            &&& post.shutdowns.last().open && wait_inv(post.shutdowns.last()) && arrives(
                post.shutdowns.last(),
            )
        }),
{
    let post = after_ask_shutdown(p, expire);
    assert(post.shutdowns.drop_last() =~= p.shutdowns);
}

proof fn lemma_last_closes<T, W>(p: PoolView<T, W>, timers: Seq<TimerEntry<Timer>>, i: int)
    requires
        0 <= i < timers.len(),
        timers[i].2 is Waiter,
        forall|j: int| 0 <= j < timers.len() ==> timer_known(p, (#[trigger] timers[j]).2),
    ensures
        after_last_timers(p, timers).waits.len() == p.waits.len(),
        !after_last_timers(p, timers).waits[timers[i].2->Waiter_0.id()].open,
    decreases timers.len(),
{
    let rest = timers.drop_last();
    assert forall|j: int| 0 <= j < rest.len() implies timer_known(p, (#[trigger] rest[j]).2) by {
        assert(rest[j] == timers[j]);
    }
    lemma_last_length(p, rest);
    assert(timer_known(p, timers[i].2));
    assert(timer_known(p, timers[timers.len() - 1].2));
    if i < rest.len() {
        assert(rest[i] == timers[i]);
        lemma_last_closes(p, rest, i);
    }
}

proof fn lemma_last_length<T, W>(p: PoolView<T, W>, timers: Seq<TimerEntry<Timer>>)
    requires
        forall|j: int| 0 <= j < timers.len() ==> timer_known(p, (#[trigger] timers[j]).2),
    ensures
        after_last_timers(p, timers).waits.len() == p.waits.len(),
    decreases timers.len(),
{
    if timers.len() > 0 {
        let rest = timers.drop_last();
        assert forall|j: int| 0 <= j < rest.len() implies timer_known(
            p,
            (#[trigger] rest[j]).2,
        ) by {
            assert(rest[j] == timers[j]);
        }
        lemma_last_length(p, rest);
        assert(timer_known(p, timers[timers.len() - 1].2));
    }
}

/// A wait for which a timer is set when the manager stops ends there: the timer is not
/// dropped without a word.
pub proof fn law_timed_wait_ends_with_the_pool<T, W>(p: PoolView<T, W>, i: int)
    requires
        pool_inv(p),
        0 <= i < p.mgr.timers.len(),
        p.mgr.timers[i].2 is Waiter,
    ensures
        !after_last_timers(p, p.mgr.timers).waits[p.mgr.timers[i].2->Waiter_0.id()].open,
{
    lemma_last_closes(p, p.mgr.timers, i);
}

} // verus!
