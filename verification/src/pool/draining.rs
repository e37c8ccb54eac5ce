//! How a pool is emptied, and what the manager remembers.

use vstd::prelude::*;

use crate::dropshot::{attempt, Attempt, Canceled};
use crate::pool::laws::{
    law_used_is_left_alone, lemma_events_keep, lemma_evictions, lemma_stop_leaves,
    lemma_timers_leave,
};
use crate::pool::model::{
    after_ask_drain, after_check, after_dismiss, after_drop_handle, after_inbox,
    after_last_timers, after_manager_detach, after_news, after_requests, after_serve,
    after_start_drain, after_stop_drain, after_waiter, detached, is_drained, pool_inv, round, served, timer_expires,
    timer_known, timers_expire, with_mgr, with_shared, Access, ManagerView, PoolView, Register,
    Rest, Timer,
};
use crate::pool::rounds::{
    is_set, lemma_closed, lemma_parts, lemma_served_mgr, lemma_told_range, lemma_waiters_served,
};
use crate::resource::info::ResourceInfo;
use crate::resource::lock::{held, known, ready, vacant, ResourceGuard, ResourceLock};
use crate::resource::repo::{guarding, lemma_filter, other_than, with_lock};
use crate::shared::{after_acquire, next_idle, SharedEvent, SharedView};
use crate::timers::{expired, law_split, remaining, TimerEntry};
use crate::wait::{after_cancel, arrives, awaited, wait_inv, WaitResponder};

verus! {

broadcast use {
    ResourceLock::lemma_at,
    ResourceLock::lemma_same,
    ResourceGuard::lemma_of,
    ResourceGuard::lemma_view,
};

/// A pool that is in use is emptied when it is told to be, and closed down when its last
/// handle is given up, and the manager learns of it. One that has stopped stays so.
pub proof fn law_told_to_be_emptied<T, W>(p: PoolView<T, W>, shutdown: bool)
    ensures
        ({
            let post = after_start_drain(p, shutdown);
            &&& post == (PoolView {
                state: post.state,
                shared: SharedView { notified: post.shared.notified, ..p.shared },
                ..p
            })
            &&& p.state is Active && !shutdown ==> post.state is Drain && post.shared.notified
            &&& (p.state is Active || p.state is Drain) && shutdown ==> post.state is Shutdown
                && post.shared.notified
            &&& p.state is Drain && !shutdown ==> post == p
            &&& p.state is Shutdown || p.state is Stopped ==> post == p
        }),
        ({
            let post = after_stop_drain(p);
            &&& post == (PoolView { state: post.state, ..p })
            &&& p.state is Drain ==> post.state is Active
            &&& !(p.state is Drain) ==> post.state == p.state
        }),
        p.handles == 1 ==> after_drop_handle(p) == after_start_drain(
            PoolView { handles: 0, ..p },
            true,
        ),
{
}

proof fn lemma_expired_drain<T, W, R: Fn(T, ResourceInfo) -> (T, bool)>(
    p: PoolView<T, W>,
    hook: Option<R>,
    entries: Seq<TimerEntry<Timer>>,
    now: u128,
    post: PoolView<T, W>,
    to: WaitResponder,
)
    requires
        timers_expire(p, hook, entries, now, post),
        awaited(p.drains, to),
        forall|i: int| 0 <= i < entries.len() ==> timer_known(p, (#[trigger] entries[i]).2),
    ensures
        post.drains.len() == p.drains.len(),
        post.waits.len() == p.waits.len(),
        post.shared.cells.len() >= p.shared.cells.len(),
        (exists|i: int|
            0 <= i < entries.len() && (#[trigger] entries[i]).2 == Timer::Drain(to))
            ==> post.drains[to.id()] == after_cancel(p.drains[to.id()]),
    decreases entries.len(),
{
    if entries.len() > 0 {
        let rest = entries.drop_last();
        let entry = entries.last();
        let mid = choose|mid: PoolView<T, W>|
            timers_expire(p, hook, rest, now, mid) && #[trigger] timer_expires(
                mid,
                hook,
                entry,
                now,
                post,
            );
        assert forall|i: int| 0 <= i < rest.len() implies timer_known(
            p,
            (#[trigger] rest[i]).2,
        ) by {
            assert(rest[i] == entries[i]);
        }
        lemma_expired_drain(p, hook, rest, now, mid, to);
        lemma_untouched_drain(p, hook, rest, now, mid, to);
        assert(timer_known(p, entries[entries.len() - 1].2));
        if exists|i: int| 0 <= i < entries.len() && (#[trigger] entries[i]).2 == Timer::Drain(to) {
            let i = choose|i: int|
                0 <= i < entries.len() && (#[trigger] entries[i]).2 == Timer::Drain(to);
            if i < rest.len() {
                assert(rest[i].2 == Timer::Drain(to));
                assert(mid.drains[to.id()] == after_cancel(p.drains[to.id()]));
            }
        }
    }
}

proof fn lemma_untouched_drain<T, W, R: Fn(T, ResourceInfo) -> (T, bool)>(
    p: PoolView<T, W>,
    hook: Option<R>,
    entries: Seq<TimerEntry<Timer>>,
    now: u128,
    post: PoolView<T, W>,
    to: WaitResponder,
)
    requires
        timers_expire(p, hook, entries, now, post),
        awaited(p.drains, to),
        forall|i: int| 0 <= i < entries.len() ==> timer_known(p, (#[trigger] entries[i]).2),
    ensures
        post.drains.len() == p.drains.len(),
        post.waits.len() == p.waits.len(),
        post.shared.cells.len() >= p.shared.cells.len(),
        post.drains[to.id()] == p.drains[to.id()] || post.drains[to.id()] == after_cancel(
            p.drains[to.id()],
        ),
    decreases entries.len(),
{
    if entries.len() > 0 {
        let rest = entries.drop_last();
        let entry = entries.last();
        let mid = choose|mid: PoolView<T, W>|
            timers_expire(p, hook, rest, now, mid) && #[trigger] timer_expires(
                mid,
                hook,
                entry,
                now,
                post,
            );
        assert forall|i: int| 0 <= i < rest.len() implies timer_known(
            p,
            (#[trigger] rest[i]).2,
        ) by {
            assert(rest[i] == entries[i]);
        }
        lemma_untouched_drain(p, hook, rest, now, mid, to);
        assert(timer_known(p, entries[entries.len() - 1].2));
    }
}

proof fn lemma_requests_drains<T, W>(p: PoolView<T, W>, registers: Seq<Register>)
    ensures
        after_requests(p, registers).drains == p.drains,
        after_requests(p, registers).mgr.repo == p.mgr.repo,
        after_requests(p, registers).shared.cells == p.shared.cells,
        p.state is Drain ==> after_requests(p, registers).state is Drain,
        p.state is Active && (exists|i: int|
            0 <= i < registers.len() && #[trigger] registers[i] is Drain) ==> after_requests(
            p,
            registers,
        ).state is Drain,
        p.state is Active && (forall|i: int|
            0 <= i < registers.len() ==> #[trigger] registers[i] is Waiter) ==> after_requests(
            p,
            registers,
        ).state is Active,
    decreases registers.len(),
{
    if registers.len() > 0 {
        let rest = registers.drop_last();
        lemma_requests_drains(p, rest);
        if p.state is Active && (exists|i: int|
            0 <= i < registers.len() && #[trigger] registers[i] is Drain) {
            let i = choose|i: int| 0 <= i < registers.len() && #[trigger] registers[i] is Drain;
            if i < rest.len() {
                assert(rest[i] is Drain);
            } else if exists|j: int| 0 <= j < rest.len() && #[trigger] rest[j] is Drain {
            } else {
                assert forall|j: int| 0 <= j < rest.len() implies #[trigger] rest[j] is Waiter by {
                    assert(!(rest[j] is Drain));
                }
            }
        }
        if forall|i: int| 0 <= i < registers.len() ==> #[trigger] registers[i] is Waiter {
            assert forall|j: int| 0 <= j < rest.len() implies #[trigger] rest[j] is Waiter by {
                assert(rest[j] == registers[j]);
            }
            assert(registers[registers.len() - 1] is Waiter);
        }
    }
}

/// Whoever had the pool emptied and waits longer than was said is told that it is not
/// empty, in the next round, even if it is by then.
pub proof fn law_late_drain_is_called_off<T, W, R: Fn(T, ResourceInfo) -> (T, bool)>(
    p: PoolView<T, W>,
    hook: Option<R>,
    now: u128,
    post: PoolView<T, W>,
    rest: Rest,
    to: WaitResponder,
    at: u128,
)
    requires
        pool_inv(p),
        awaited(p.drains, to),
        wait_inv(p.drains[to.id()]),
        p.drains[to.id()].open,
        is_set(p.mgr.timers, at, Timer::Drain(to)),
        at < now,
        round(p, hook, now, post, rest),
    ensures
        attempt(post.drains[to.id()].shot, true) == Attempt::<bool>::Ready(Err(Canceled)),
{
    let id = to.id();
    let (on_time, after) = lemma_parts(p, hook, now, post, rest);
    let number = choose|number: usize| #[trigger]
        p.mgr.timers.contains((at, number, Timer::Drain(to)));
    let i = choose|i: int|
        0 <= i < p.mgr.timers.len() && p.mgr.timers[i] == (at, number, Timer::Drain(to));
    let start = with_mgr(p, ManagerView { timers: remaining(p.mgr.timers, now), ..p.mgr });
    let entries = expired(p.mgr.timers, now);
    law_split(p.mgr.timers, now);
    if i >= entries.len() {
        assert(remaining(p.mgr.timers, now)[i - entries.len()] == p.mgr.timers[i]);
    }
    assert(entries[i] == p.mgr.timers[i]);
    assert forall|j: int| 0 <= j < entries.len() implies timer_known(
        start,
        (#[trigger] entries[j]).2,
    ) by {
        assert(entries[j] == p.mgr.timers[j]);
        assert(timer_known(p, p.mgr.timers[j].2));
    }
    lemma_expired_drain(start, hook, entries, now, on_time, to);
    let news = after_news(on_time);
    lemma_requests_drains(PoolView { registers: Seq::empty(), ..news }, news.registers);
    let told = after_inbox(news);
    lemma_served_mgr(told, None);
    assert(after.drains == on_time.drains);
    let q = after_check(after);
    if is_drained(q) {
        assert forall|j: int| 0 <= j < q.mgr.timers.len() implies (
        #[trigger] q.mgr.timers[j].2 matches Timer::Drain(other) ==> 0 <= other.id()
            < q.drains.len()) by {
            assert(timer_known(after, after.mgr.timers[j].2));
        }
        lemma_last_drain(q, q.mgr.timers, id);
        lemma_dismissed_drains(after_last_timers(q, q.mgr.timers), q.mgr.waiters);
    }
}

proof fn lemma_last_drain<T, W>(p: PoolView<T, W>, timers: Seq<TimerEntry<Timer>>, id: int)
    requires
        0 <= id < p.drains.len(),
        !p.drains[id].open,
        forall|j: int|
            0 <= j < timers.len() ==> ((#[trigger] timers[j]).2 matches Timer::Drain(other) ==> 0
                <= other.id() < p.drains.len()),
    ensures
        after_last_timers(p, timers).drains[id] == p.drains[id],
        after_last_timers(p, timers).drains.len() == p.drains.len(),
    decreases timers.len(),
{
    if timers.len() > 0 {
        let rest = timers.drop_last();
        assert forall|j: int| 0 <= j < rest.len() implies (
        (#[trigger] rest[j]).2 matches Timer::Drain(other) ==> 0 <= other.id() < p.drains.len()) by {
            assert(rest[j] == timers[j]);
        }
        lemma_last_drain(p, rest, id);
        assert(timers[timers.len() - 1] == timers.last());
    }
}

proof fn lemma_dismissed_drains<T, W>(p: PoolView<T, W>, waiters: Seq<WaitResponder>)
    ensures
        after_dismiss(p, waiters).drains == p.drains,
    decreases waiters.len(),
{
    if waiters.len() > 0 {
        lemma_dismissed_drains(p, waiters.drop_last());
    }
}

/// A pool that is in use, and whose manager is asked to empty it, is being emptied after
/// the next round, or has been. It is in use still if nobody asks.
pub proof fn law_emptied_when_asked<T, W, R: Fn(T, ResourceInfo) -> (T, bool)>(
    p: PoolView<T, W>,
    hook: Option<R>,
    now: u128,
    post: PoolView<T, W>,
    rest: Rest,
)
    requires
        pool_inv(p),
        p.state is Active,
        round(p, hook, now, post, rest),
    ensures
        (exists|i: int| 0 <= i < p.registers.len() && #[trigger] p.registers[i] is Drain)
            ==> post.state is Drain || (post.state is Stopped && rest is Stop),
        (forall|i: int| 0 <= i < p.registers.len() ==> #[trigger] p.registers[i] is Waiter)
            ==> post.state is Active && rest is Wait,
{
    let (on_time, after) = lemma_parts(p, hook, now, post, rest);
    let start = with_mgr(p, ManagerView { timers: remaining(p.mgr.timers, now), ..p.mgr });
    lemma_expired_state(start, hook, expired(p.mgr.timers, now), now, on_time);
    let news = after_news(on_time);
    lemma_requests_drains(PoolView { registers: Seq::empty(), ..news }, news.registers);
    lemma_served_mgr(after_inbox(news), None);
}

proof fn lemma_expired_state<T, W, R: Fn(T, ResourceInfo) -> (T, bool)>(
    p: PoolView<T, W>,
    hook: Option<R>,
    entries: Seq<TimerEntry<Timer>>,
    now: u128,
    post: PoolView<T, W>,
)
    requires
        timers_expire(p, hook, entries, now, post),
    ensures
        p.state is Active ==> post.state is Active,
        post.registers == p.registers,
    decreases entries.len(),
{
    if entries.len() > 0 {
        let rest = entries.drop_last();
        let mid = choose|mid: PoolView<T, W>|
            timers_expire(p, hook, rest, now, mid) && #[trigger] timer_expires(
                mid,
                hook,
                entries.last(),
                now,
                post,
            );
        lemma_expired_state(p, hook, rest, now, mid);
    }
}

/// When the manager stops, nobody is left waiting: everybody who was in line has been
/// sent a resource or learns that none will come.
pub proof fn law_nobody_waits_for_a_stopped_pool<T, W, R: Fn(T, ResourceInfo) -> (T, bool)>(
    p: PoolView<T, W>,
    hook: Option<R>,
    now: u128,
    post: PoolView<T, W>,
    rest: Rest,
    i: int,
)
    requires
        pool_inv(p),
        round(p, hook, now, post, rest),
        rest is Stop,
        0 <= i < p.mgr.waiters.len(),
    ensures
        post.state is Stopped,
        post.mgr.waiters.len() == 0,
        post.mgr.timers.len() == 0,
        !post.waits[p.mgr.waiters[i].id()].open,
{
    let (on_time, after) = lemma_parts(p, hook, now, post, rest);
    let to = p.mgr.waiters[i];
    let told = lemma_told_range(p, hook, now, on_time);
    assert(told.mgr.waiters[i] == to);
    lemma_in_line_or_closed(told, None, i);
    lemma_waiters_served(told, hook, now, after);
    let q = after_check(after);
    assert(is_drained(q));
    assert forall|j: int| 0 <= j < q.mgr.timers.len() implies (
    (#[trigger] q.mgr.timers[j]).2 matches Timer::Waiter(other) ==> 0 <= other.id()
        < q.waits.len()) by {
        assert(timer_known(after, after.mgr.timers[j].2));
    }
    lemma_last_wait(q, q.mgr.timers, to.id());
    let last = after_last_timers(q, q.mgr.timers);
    assert forall|j: int| 0 <= j < q.mgr.waiters.len() implies 0 <= (
    #[trigger] q.mgr.waiters[j]).id() < last.waits.len() by {
        assert(awaited(after.waits, after.mgr.waiters[j]));
    }
    lemma_dismissed_waits(last, q.mgr.waiters, to.id());
    if after.waits[to.id()].open {
        assert(after.mgr.waiters.contains(to));
    }
}

proof fn lemma_in_line_or_closed<T, W>(p: PoolView<T, W>, spare: Option<Access<T>>, i: int)
    requires
        0 <= i < p.mgr.waiters.len(),
        forall|j: int|
            0 <= j < p.mgr.waiters.len() ==> 0 <= (#[trigger] p.mgr.waiters[j]).id()
                < p.waits.len(),
    ensures
        ({
            let post = served(p, spare).0;
            ||| post.mgr.waiters.contains(p.mgr.waiters[i])
            ||| !post.waits[p.mgr.waiters[i].id()].open
        }),
    decreases p.mgr.waiters.len(),
{
    let to = p.mgr.waiters[0];
    let tail = p.mgr.waiters.drop_first();
    assert forall|j: int| 0 <= j < tail.len() implies 0 <= (#[trigger] tail[j]).id()
        < p.waits.len() by {
        assert(tail[j] == p.mgr.waiters[j + 1]);
    }
    if i > 0 {
        assert(tail[i - 1] == p.mgr.waiters[i]);
    }
    let stays = p.waits[to.id()].open && spare is None && next_idle(p.shared) is None;
    if stays {
        assert(served(p, spare).0.mgr.waiters == p.mgr.waiters);
    } else {
        let q = if !p.waits[to.id()].open {
            after_waiter(p)
        } else if spare is Some {
            after_waiter(after_serve(p, to, spare->0))
        } else {
            after_waiter(
                after_serve(
                    with_shared(p, after_acquire(p.shared)),
                    to,
                    next_idle(p.shared)->0,
                ),
            )
        };
        let left = if !p.waits[to.id()].open {
            spare
        } else if arrives(p.waits[to.id()]) {
            None
        } else if spare is Some {
            spare
        } else {
            next_idle(p.shared)
        };
        assert(served(p, spare) == served(q, left));
        if i > 0 {
            lemma_in_line_or_closed(q, left, i - 1);
        } else {
            assert(!q.waits[to.id()].open);
            lemma_closed(q, left, to.id());
        }
    }
}

proof fn lemma_last_wait<T, W>(p: PoolView<T, W>, timers: Seq<TimerEntry<Timer>>, id: int)
    requires
        0 <= id < p.waits.len(),
        forall|j: int|
            0 <= j < timers.len() ==> ((#[trigger] timers[j]).2 matches Timer::Waiter(other) ==> 0
                <= other.id() < p.waits.len()),
    ensures
        !p.waits[id].open ==> !after_last_timers(p, timers).waits[id].open,
        after_last_timers(p, timers).waits.len() == p.waits.len(),
        after_last_timers(p, timers).mgr == p.mgr,
    decreases timers.len(),
{
    if timers.len() > 0 {
        let rest = timers.drop_last();
        assert forall|j: int| 0 <= j < rest.len() implies (
        (#[trigger] rest[j]).2 matches Timer::Waiter(other) ==> 0 <= other.id() < p.waits.len()) by {
            assert(rest[j] == timers[j]);
        }
        lemma_last_wait(p, rest, id);
        assert(timers[timers.len() - 1] == timers.last());
    }
}

proof fn lemma_dismissed_waits<T, W>(p: PoolView<T, W>, waiters: Seq<WaitResponder>, id: int)
    requires
        0 <= id < p.waits.len(),
        forall|j: int|
            0 <= j < waiters.len() ==> 0 <= (#[trigger] waiters[j]).id() < p.waits.len(),
    ensures
        after_dismiss(p, waiters).waits.len() == p.waits.len(),
        !p.waits[id].open || (exists|j: int|
            0 <= j < waiters.len() && (#[trigger] waiters[j]).id() == id) ==> !after_dismiss(
            p,
            waiters,
        ).waits[id].open,
    decreases waiters.len(),
{
    if waiters.len() > 0 {
        let rest = waiters.drop_last();
        assert forall|j: int| 0 <= j < rest.len() implies 0 <= (#[trigger] rest[j]).id()
            < p.waits.len() by {
            assert(rest[j] == waiters[j]);
        }
        lemma_dismissed_waits(p, rest, id);
        assert(0 <= waiters[waiters.len() - 1].id() < p.waits.len());
        if exists|j: int| 0 <= j < waiters.len() && (#[trigger] waiters[j]).id() == id {
            let j = choose|j: int| 0 <= j < waiters.len() && (#[trigger] waiters[j]).id() == id;
            if j < rest.len() {
                assert(rest[j].id() == id);
            }
        }
    }
}

/// A pool that is being emptied has no resource left after a round but those that are in
/// use. It goes on being emptied only as long as there is one, or somebody else has a
/// handle.
pub proof fn law_only_used_ones_are_left<T, W, R: Fn(T, ResourceInfo) -> (T, bool)>(
    p: PoolView<T, W>,
    hook: Option<R>,
    now: u128,
    post: PoolView<T, W>,
    rest: Rest,
    i: int,
)
    requires
        pool_inv(p),
        round(p, hook, now, post, rest),
        post.state is Drain,
    ensures
        0 <= i < post.mgr.repo.len() ==> held(post.shared.cells, post.mgr.repo[i]),
        post.mgr.repo.len() > 0 || post.handles > 1,
{
    let (on_time, after) = lemma_parts(p, hook, now, post, rest);
    let q = after_check(after);
    if is_drained(q) {
        assert(post.state is Stopped);
    }
    lemma_evictions(after.shared, after.mgr.repo);
    if 0 <= i < post.mgr.repo.len() {
        lemma_filter(after.mgr.repo, guarding(post.shared.cells));
        let lock = post.mgr.repo[i];
        assert(after.mgr.repo.contains(lock));
        assert((guarding(post.shared.cells))(lock));
        let j = choose|j: int| 0 <= j < after.mgr.repo.len() && after.mgr.repo[j] == lock;
        assert(known(after.shared.cells, after.mgr.repo[j]));
        if !held(after.shared.cells, after.mgr.repo[j]) {
            assert(vacant(post.shared.cells, after.mgr.repo[j]));
        }
        assert(held(post.shared.cells, lock));
    }
}

proof fn lemma_expired_repo<T, W, R: Fn(T, ResourceInfo) -> (T, bool)>(
    p: PoolView<T, W>,
    hook: Option<R>,
    entries: Seq<TimerEntry<Timer>>,
    now: u128,
    post: PoolView<T, W>,
    lock: ResourceLock,
)
    requires
        timers_expire(p, hook, entries, now, post),
        held(p.shared.cells, lock),
        forall|i: int| 0 <= i < entries.len() ==> timer_known(p, (#[trigger] entries[i]).2),
        p.shared.cells.len() + entries.len() <= usize::MAX,
    ensures
        p.mgr.repo.contains(lock) ==> post.mgr.repo.contains(lock),
        p.shared.events.is_prefix_of(post.shared.events),
    decreases entries.len(),
{
    if entries.len() > 0 {
        let rest = entries.drop_last();
        let entry = entries.last();
        let mid = choose|mid: PoolView<T, W>|
            timers_expire(p, hook, rest, now, mid) && #[trigger] timer_expires(
                mid,
                hook,
                entry,
                now,
                post,
            );
        assert forall|i: int| 0 <= i < rest.len() implies timer_known(
            p,
            (#[trigger] rest[i]).2,
        ) by {
            assert(rest[i] == entries[i]);
        }
        lemma_expired_repo(p, hook, rest, now, mid, lock);
        lemma_timers_leave(p, hook, rest, now, mid, lock);
        if let Timer::Verify(about) = entry.2 {
            if ready(mid.shared.cells, about) && p.mgr.repo.contains(lock) {
                let i = choose|i: int| 0 <= i < mid.mgr.repo.len() && mid.mgr.repo[i] == lock;
                assert((other_than(about))(lock));
                mid.mgr.repo.lemma_filter_contains(other_than(about), i);
                let moved = after_manager_detach(mid, about);
                let next = detached(mid.shared, about).lock;
                let j = choose|j: int| 0 <= j < moved.mgr.repo.len() && moved.mgr.repo[j] == lock;
                assert(with_lock(moved.mgr.repo, next)[j] == lock);
                assert(post.mgr.repo[j] == lock);
            }
        }
    }
}

/// The manager does not forget a resource that is in use, and takes note of every new
/// one.
pub proof fn law_used_is_remembered<T, W, R: Fn(T, ResourceInfo) -> (T, bool)>(
    p: PoolView<T, W>,
    hook: Option<R>,
    now: u128,
    post: PoolView<T, W>,
    rest: Rest,
    lock: ResourceLock,
)
    requires
        pool_inv(p),
        held(p.shared.cells, lock),
        p.mgr.repo.contains(lock) || p.shared.events.contains(SharedEvent::Created(lock)),
        p.shared.cells.len() + p.mgr.timers.len() <= usize::MAX,
        round(p, hook, now, post, rest),
    ensures
        post.mgr.repo.contains(lock),
        rest is Wait,
{
    let (on_time, after) = lemma_parts(p, hook, now, post, rest);
    law_used_is_left_alone(p, hook, now, post, rest, lock);
    let start = with_mgr(p, ManagerView { timers: remaining(p.mgr.timers, now), ..p.mgr });
    let entries = expired(p.mgr.timers, now);
    law_split(p.mgr.timers, now);
    assert forall|j: int| 0 <= j < entries.len() implies timer_known(
        start,
        (#[trigger] entries[j]).2,
    ) by {
        assert(entries[j] == p.mgr.timers[j]);
        assert(timer_known(p, p.mgr.timers[j].2));
    }
    lemma_expired_repo(start, hook, entries, now, on_time, lock);
    if p.shared.events.contains(SharedEvent::Created(lock)) {
        let k = choose|k: int|
            0 <= k < p.shared.events.len() && p.shared.events[k] == SharedEvent::Created(lock);
        assert(on_time.shared.events[k] == SharedEvent::Created(lock));
    }
    lemma_events_keep(on_time.mgr, on_time.shared.events, lock);
    let news = after_news(on_time);
    lemma_requests_drains(PoolView { registers: Seq::empty(), ..news }, news.registers);
    lemma_served_mgr(after_inbox(news), None);
    assert(after.mgr.repo.contains(lock));
    let cells = after_check(after).shared.cells;
    lemma_stop_leaves(after_check(after));
    assert(held(cells, lock));
    assert((guarding(cells))(lock));
    let i = choose|i: int| 0 <= i < after.mgr.repo.len() && after.mgr.repo[i] == lock;
    after.mgr.repo.lemma_filter_contains(guarding(cells), i);
    assert(after_check(after).mgr.repo.contains(lock));
}

/// When the time to empty the pool is over for somebody, that request is no longer under
/// way. The pool is in use again if it was the last one, and nothing else changes but that
/// whoever asked is told.
pub proof fn law_drain_ends_with_its_time<T, W, R: Fn(T, ResourceInfo) -> (T, bool)>(
    p: PoolView<T, W>,
    hook: Option<R>,
    at: u128,
    number: usize,
    to: WaitResponder,
    now: u128,
    post: PoolView<T, W>,
)
    requires
        p.mgr.drain_count > 0,
        awaited(p.drains, to),
        timer_expires(p, hook, (at, number, Timer::Drain(to)), now, post),
    ensures
        post.mgr == (ManagerView { drain_count: (p.mgr.drain_count - 1) as usize, ..p.mgr }),
        post.shared == p.shared,
        post.waits == p.waits,
        p.state is Drain && p.mgr.drain_count == 1 ==> post.state is Active,
        p.state is Drain && p.mgr.drain_count > 1 ==> post.state is Drain,
        !(p.state is Drain) ==> post.state == p.state,
        post.drains.remove(to.id()) == p.drains.remove(to.id()),
        !post.drains[to.id()].open,
{
    assert(post.drains.remove(to.id()) =~= p.drains.remove(to.id()));
}

/// The manager forgets a lock only if it guards nothing any more. It forgets all of those
/// when the pool is being emptied or something was disposed of.
pub proof fn law_only_empty_locks_are_forgotten<T, W>(p: PoolView<T, W>, lock: ResourceLock)
    ensures
        after_check(p).mgr.repo.contains(lock) ==> p.mgr.repo.contains(lock),
        p.mgr.repo.contains(lock) && !vacant(after_check(p).shared.cells, lock) ==> after_check(
            p,
        ).mgr.repo.contains(lock),
        (p.state is Drain || p.mgr.last_dispose_count != p.shared.dispose_count) && vacant(
            after_check(p).shared.cells,
            lock,
        ) ==> !after_check(p).mgr.repo.contains(lock),
{
    let cells = after_check(p).shared.cells;
    lemma_filter(p.mgr.repo, guarding(cells));
    if p.mgr.repo.contains(lock) {
        let i = choose|i: int| 0 <= i < p.mgr.repo.len() && p.mgr.repo[i] == lock;
        if !vacant(cells, lock) {
            assert((guarding(cells))(lock));
            p.mgr.repo.lemma_filter_contains(guarding(cells), i);
        }
    }
    if after_check(p).mgr.repo.contains(lock) {
        let repo = after_check(p).mgr.repo;
        let i = choose|i: int| 0 <= i < repo.len() && repo[i] == lock;
        if p.state is Drain || p.mgr.last_dispose_count != p.shared.dispose_count {
            assert((guarding(cells))(p.mgr.repo.filter(guarding(cells))[i]));
        }
    }
}

/// Whoever asks for the pool to be emptied is put down, with the time, behind those who
/// asked for something before, and the manager is told to look.
pub proof fn law_drain_request_is_put_down<T, W>(p: PoolView<T, W>, expire: u128)
    requires
        p.drains.len() < usize::MAX,
    ensures
        ({
            let post = after_ask_drain(p, expire);
            let to = WaitResponder::at(p.drains.len() as usize);
            &&& post.registers == p.registers.push(Register::Drain(expire, to))
            &&& post.shared == (SharedView { notified: true, ..p.shared })
            &&& post.drains.len() == p.drains.len() + 1
            &&& post.drains.drop_last() == p.drains
            &&& post.drains.last().open && wait_inv(post.drains.last()) && arrives(
                post.drains.last(),
            )
            &&& post.mgr == p.mgr && post.state == p.state && post.waits == p.waits
        }),
{
    let post = after_ask_drain(p, expire);
    assert(post.drains.drop_last() =~= p.drains);
}

proof fn lemma_last_closes<T, W>(p: PoolView<T, W>, timers: Seq<TimerEntry<Timer>>, i: int)
    requires
        0 <= i < timers.len(),
        timers[i].2 is Waiter,
        forall|j: int| 0 <= j < timers.len() ==> timer_known(p, (#[trigger] timers[j]).2),
    ensures
        after_last_timers(p, timers).waits.len() == p.waits.len(),
        !after_last_timers(p, timers).waits[timers[i].2->Waiter_0.id()].open,
    decreases timers.len(),
{
    let rest = timers.drop_last();
    assert forall|j: int| 0 <= j < rest.len() implies timer_known(p, (#[trigger] rest[j]).2) by {
        assert(rest[j] == timers[j]);
    }
    lemma_last_length(p, rest);
    assert(timer_known(p, timers[i].2));
    assert(timer_known(p, timers[timers.len() - 1].2));
    if i < rest.len() {
        assert(rest[i] == timers[i]);
        lemma_last_closes(p, rest, i);
    }
}

proof fn lemma_last_length<T, W>(p: PoolView<T, W>, timers: Seq<TimerEntry<Timer>>)
    requires
        forall|j: int| 0 <= j < timers.len() ==> timer_known(p, (#[trigger] timers[j]).2),
    ensures
        after_last_timers(p, timers).waits.len() == p.waits.len(),
    decreases timers.len(),
{
    if timers.len() > 0 {
        let rest = timers.drop_last();
        assert forall|j: int| 0 <= j < rest.len() implies timer_known(
            p,
            (#[trigger] rest[j]).2,
        ) by {
            assert(rest[j] == timers[j]);
        }
        lemma_last_length(p, rest);
        assert(timer_known(p, timers[timers.len() - 1].2));
    }
}

/// A wait for which a timer is set when the manager stops ends there: the timer is not
/// dropped without a word.
pub proof fn law_timed_wait_ends_with_the_pool<T, W>(p: PoolView<T, W>, i: int)
    requires
        pool_inv(p),
        0 <= i < p.mgr.timers.len(),
        p.mgr.timers[i].2 is Waiter,
    ensures
        !after_last_timers(p, p.mgr.timers).waits[p.mgr.timers[i].2->Waiter_0.id()].open,
{
    lemma_last_closes(p, p.mgr.timers, i);
}

} // verus!
