//! How a pool is closed down, and what the manager remembers.

use vstd::prelude::*;

use crate::arp::model::{Register, Timer};
use crate::arp::rounds::is_set;
use crate::dropshot::{attempt, Attempt, Canceled};
use crate::lifecycle::laws::{law_used_is_left_alone, lemma_last_timers_queue, lemma_timers_leave};
use crate::lifecycle::model::{
    after_ask_shutdown, after_check, after_dismiss, after_drop_handle, after_events,
    after_evictions, after_expiry, after_inbox, after_last_timers, after_manager_detach, after_news, after_requests, after_serve,
    after_shutdown, after_timers, after_waiter, after_waiters, detached, is_emptied, pool_inv,
    served, timer_known, with_mgr, with_queue, ManagerView, PoolView,
};
use crate::lifecycle::queue::{after_acquire, next_idle, queue_inv, QueueEvent, QueueView};
use crate::lifecycle::rounds::{
    done, lemma_all_served, lemma_closed, lemma_evicted, lemma_told_range,
};
use crate::pool::model::Rest;
use crate::resource::lock::{held, vacant, ResourceGuard, ResourceLock};
use crate::resource::repo::{guarding, lemma_filter, other_than, with_lock};
use crate::timers::{expired, law_split, remaining, TimerEntry};
use crate::wait::{after_cancel, arrives, awaited, wait_inv, WaitResponder};

verus! {

broadcast use {
    ResourceLock::lemma_at,
    ResourceLock::lemma_same,
    ResourceGuard::lemma_of,
    ResourceGuard::lemma_view,
};

/// A pool is closed down when its last handle is given up, and the manager learns of it.
/// One that has stopped stays so.
pub proof fn law_closed_down_with_its_last_handle<T, W>(p: PoolView<T, W>)
    ensures
        !(p.state is Stopped) ==> after_shutdown(p).state is Shutdown && after_shutdown(
            p,
        ).queue.notified,
        p.state is Stopped ==> after_shutdown(p) == p,
        after_shutdown(p) == (PoolView {
            state: after_shutdown(p).state,
            queue: QueueView { notified: after_shutdown(p).queue.notified, ..p.queue },
            ..p
        }),
        p.handles == 1 ==> after_drop_handle(p) == after_shutdown(PoolView { handles: 0, ..p }),
        p.handles > 1 ==> after_drop_handle(p) == (PoolView {
            handles: (p.handles - 1) as usize,
            ..p
        }),
{
}

proof fn lemma_expired_shutdown<T, W>(
    p: PoolView<T, W>,
    entries: Seq<TimerEntry<Timer>>,
    now: u128,
    to: WaitResponder,
)
    requires
        awaited(p.shutdowns, to),
        forall|i: int| 0 <= i < entries.len() ==> timer_known(p, (#[trigger] entries[i]).2),
    ensures
        ({
            let post = after_timers(p, entries, now);
            let id = to.id();
            &&& post.shutdowns.len() == p.shutdowns.len()
            &&& post.waits.len() == p.waits.len()
            &&& post.shutdowns[id] == p.shutdowns[id] || post.shutdowns[id] == after_cancel(
                p.shutdowns[id],
            )
            &&& (exists|i: int|
                0 <= i < entries.len() && (#[trigger] entries[i]).2 == Timer::Shutdown(to))
                ==> post.shutdowns[id] == after_cancel(p.shutdowns[id])
        }),
    decreases entries.len(),
{
    if entries.len() > 0 {
        let rest = entries.drop_last();
        assert forall|i: int| 0 <= i < rest.len() implies timer_known(
            p,
            (#[trigger] rest[i]).2,
        ) by {
            assert(rest[i] == entries[i]);
        }
        lemma_expired_shutdown(p, rest, now, to);
        assert(timer_known(p, entries[entries.len() - 1].2));
        if exists|i: int| 0 <= i < entries.len() && (#[trigger] entries[i]).2 == Timer::Shutdown(to) {
            let i = choose|i: int|
                0 <= i < entries.len() && (#[trigger] entries[i]).2 == Timer::Shutdown(to);
            if i < rest.len() {
                assert(rest[i].2 == Timer::Shutdown(to));
            }
        }
    }
}

proof fn lemma_requests_repo(m: ManagerView, timeout: Option<u128>, registers: Seq<Register>)
    ensures
        after_requests(m, timeout, registers).repo == m.repo,
    decreases registers.len(),
{
    if registers.len() > 0 {
        lemma_requests_repo(m, timeout, registers.drop_last());
    }
}

/// Whoever waits for the pool to be empty longer than was said is told that it is not, in
/// the next round, even if it is by then.
pub proof fn law_late_shutdown_is_called_off<T, W>(
    p: PoolView<T, W>,
    now: u128,
    post: PoolView<T, W>,
    rest: Rest,
    to: WaitResponder,
    at: u128,
)
    requires
        pool_inv(p),
        awaited(p.shutdowns, to),
        wait_inv(p.shutdowns[to.id()]),
        p.shutdowns[to.id()].open,
        is_set(p.mgr.timers, at, Timer::Shutdown(to)),
        at < now,
        done(p, now, post, rest),
    ensures
        attempt(post.shutdowns[to.id()].shot, true) == Attempt::<bool>::Ready(Err(Canceled)),
{
    let id = to.id();
    let on_time = after_expiry(p, now);
    let number = choose|number: usize| #[trigger]
        p.mgr.timers.contains((at, number, Timer::Shutdown(to)));
    let i = choose|i: int|
        0 <= i < p.mgr.timers.len() && p.mgr.timers[i] == (at, number, Timer::Shutdown(to));
    let start = with_mgr(p, ManagerView { timers: remaining(p.mgr.timers, now), ..p.mgr });
    let entries = expired(p.mgr.timers, now);
    law_split(p.mgr.timers, now);
    if i >= entries.len() {
        assert(remaining(p.mgr.timers, now)[i - entries.len()] == p.mgr.timers[i]);
    }
    assert(entries[i] == p.mgr.timers[i]);
    assert forall|j: int| 0 <= j < entries.len() implies timer_known(
        start,
        (#[trigger] entries[j]).2,
    ) by {
        assert(entries[j] == p.mgr.timers[j]);
        assert(timer_known(p, p.mgr.timers[j].2));
    }
    lemma_expired_shutdown(start, entries, now, to);
    let told = after_inbox(after_news(on_time));
    let busy = with_queue(
        told,
        QueueView { busy: told.mgr.waiters.len() > 0, ..told.queue },
    );
    lemma_all_served(busy, now);
    let after = after_waiters(told, now);
    assert(after.shutdowns == on_time.shutdowns);
    lemma_evicted(after, after.mgr.repo);
    let q = after_check(after);
    if is_emptied(q) {
        assert forall|j: int| 0 <= j < q.mgr.timers.len() implies (
        #[trigger] q.mgr.timers[j].2 matches Timer::Shutdown(other) ==> 0 <= other.id()
            < q.shutdowns.len()) by {
            assert(timer_known(after, after.mgr.timers[j].2));
        }
        lemma_last_shutdown(q, q.mgr.timers, id);
        lemma_dismissed_shutdowns(after_last_timers(q, q.mgr.timers), q.mgr.waiters);
    }
}

proof fn lemma_last_shutdown<T, W>(p: PoolView<T, W>, timers: Seq<TimerEntry<Timer>>, id: int)
    requires
        0 <= id < p.shutdowns.len(),
        !p.shutdowns[id].open,
        forall|j: int|
            0 <= j < timers.len() ==> ((#[trigger] timers[j]).2 matches Timer::Shutdown(other) ==> 0
                <= other.id() < p.shutdowns.len()),
    ensures
        after_last_timers(p, timers).shutdowns[id] == p.shutdowns[id],
        after_last_timers(p, timers).shutdowns.len() == p.shutdowns.len(),
    decreases timers.len(),
{
    if timers.len() > 0 {
        let rest = timers.drop_last();
        assert forall|j: int| 0 <= j < rest.len() implies (
        (#[trigger] rest[j]).2 matches Timer::Shutdown(other) ==> 0 <= other.id() < p.shutdowns.len()) by {
            assert(rest[j] == timers[j]);
        }
        lemma_last_shutdown(p, rest, id);
        assert(timers[timers.len() - 1] == timers.last());
    }
}

proof fn lemma_dismissed_shutdowns<T, W>(p: PoolView<T, W>, waiters: Seq<WaitResponder>)
    ensures
        after_dismiss(p, waiters).shutdowns == p.shutdowns,
    decreases waiters.len(),
{
    if waiters.len() > 0 {
        lemma_dismissed_shutdowns(p, waiters.drop_last());
    }
}

/// When the manager stops, nobody is left waiting: everybody who was in line has been
/// sent a resource, has left, or learns that none will come.
pub proof fn law_nobody_waits_for_a_stopped_pool<T, W>(
    p: PoolView<T, W>,
    now: u128,
    post: PoolView<T, W>,
    rest: Rest,
    i: int,
)
    requires
        pool_inv(p),
        done(p, now, post, rest),
        rest is Stop,
        0 <= i < p.mgr.waiters.len(),
    ensures
        post.state is Stopped,
        post.mgr.waiters.len() == 0,
        post.mgr.timers.len() == 0,
        !arrives(post.waits[p.mgr.waiters[i].id()]),
{
    let on_time = after_expiry(p, now);
    let to = p.mgr.waiters[i];
    let told = lemma_told_range(p, now, on_time);
    assert(told.mgr.waiters[i] == to);
    let busy = with_queue(
        told,
        QueueView { busy: told.mgr.waiters.len() > 0, ..told.queue },
    );
    lemma_all_served(busy, now);
    lemma_closed(busy, now, to.id());
    let after = after_waiters(told, now);
    if after.mgr.waiters == told.mgr.waiters {
        assert(after.mgr.waiters[i] == to);
    } else {
        lemma_in_line_or_closed(busy, now, i);
    }
    lemma_evicted(after, after.mgr.repo);
    let q = after_check(after);
    assert(is_emptied(q));
    assert forall|j: int| 0 <= j < q.mgr.timers.len() implies (
    (#[trigger] q.mgr.timers[j]).2 matches Timer::Waiter(other) ==> 0 <= other.id()
        < q.waits.len()) by {
        assert(timer_known(after, after.mgr.timers[j].2));
    }
    lemma_last_wait(q, q.mgr.timers, to.id());
    let last = after_last_timers(q, q.mgr.timers);
    assert forall|j: int| 0 <= j < q.mgr.waiters.len() implies 0 <= (
    #[trigger] q.mgr.waiters[j]).id() < last.waits.len() by {
        assert(awaited(after.waits, after.mgr.waiters[j]));
    }
    lemma_dismissed_waits(last, q.mgr.waiters, to.id());
    if arrives(after.waits[to.id()]) {
        assert(after.mgr.waiters.contains(to));
    }
}

proof fn lemma_in_line_or_closed<T, W>(p: PoolView<T, W>, now: u128, i: int)
    requires
        0 <= i < p.mgr.waiters.len(),
        forall|j: int|
            0 <= j < p.mgr.waiters.len() ==> 0 <= (#[trigger] p.mgr.waiters[j]).id()
                < p.waits.len(),
    ensures
        ({
            let post = served(p, now);
            ||| post.mgr.waiters.contains(p.mgr.waiters[i])
            ||| !arrives(post.waits[p.mgr.waiters[i].id()])
        }),
    decreases p.mgr.waiters.len(),
{
    let to = p.mgr.waiters[0];
    let tail = p.mgr.waiters.drop_first();
    assert forall|j: int| 0 <= j < tail.len() implies 0 <= (#[trigger] tail[j]).id()
        < p.waits.len() by {
        assert(tail[j] == p.mgr.waiters[j + 1]);
    }
    if i > 0 {
        assert(tail[i - 1] == p.mgr.waiters[i]);
    }
    if arrives(p.waits[to.id()]) && next_idle(p.queue, now) is None {
        assert(served(p, now).mgr.waiters == p.mgr.waiters);
    } else {
        let q = if !arrives(p.waits[to.id()]) {
            after_waiter(p)
        } else {
            after_waiter(
                after_serve(
                    with_queue(p, after_acquire(p.queue)),
                    to,
                    next_idle(p.queue, now)->0,
                ),
            )
        };
        assert(served(p, now) == served(q, now));
        if i > 0 {
            lemma_in_line_or_closed(q, now, i - 1);
        } else {
            assert(!arrives(q.waits[to.id()]));
            lemma_closed(q, now, to.id());
        }
    }
}

proof fn lemma_last_wait<T, W>(p: PoolView<T, W>, timers: Seq<TimerEntry<Timer>>, id: int)
    requires
        0 <= id < p.waits.len(),
        forall|j: int|
            0 <= j < timers.len() ==> ((#[trigger] timers[j]).2 matches Timer::Waiter(other) ==> 0
                <= other.id() < p.waits.len()),
    ensures
        !arrives(p.waits[id]) ==> !arrives(after_last_timers(p, timers).waits[id]),
        after_last_timers(p, timers).waits.len() == p.waits.len(),
        after_last_timers(p, timers).mgr == p.mgr,
    decreases timers.len(),
{
    if timers.len() > 0 {
        let rest = timers.drop_last();
        assert forall|j: int| 0 <= j < rest.len() implies (
        (#[trigger] rest[j]).2 matches Timer::Waiter(other) ==> 0 <= other.id() < p.waits.len()) by {
            assert(rest[j] == timers[j]);
        }
        lemma_last_wait(p, rest, id);
        assert(timers[timers.len() - 1] == timers.last());
    }
}

proof fn lemma_dismissed_waits<T, W>(p: PoolView<T, W>, waiters: Seq<WaitResponder>, id: int)
    requires
        0 <= id < p.waits.len(),
        forall|j: int|
            0 <= j < waiters.len() ==> 0 <= (#[trigger] waiters[j]).id() < p.waits.len(),
    ensures
        after_dismiss(p, waiters).waits.len() == p.waits.len(),
        !arrives(p.waits[id]) || (exists|j: int|
            0 <= j < waiters.len() && (#[trigger] waiters[j]).id() == id) ==> !arrives(
            after_dismiss(p, waiters).waits[id],
        ),
    decreases waiters.len(),
{
    if waiters.len() > 0 {
        let rest = waiters.drop_last();
        assert forall|j: int| 0 <= j < rest.len() implies 0 <= (#[trigger] rest[j]).id()
            < p.waits.len() by {
            assert(rest[j] == waiters[j]);
        }
        lemma_dismissed_waits(p, rest, id);
        assert(0 <= waiters[waiters.len() - 1].id() < p.waits.len());
        if exists|j: int| 0 <= j < waiters.len() && (#[trigger] waiters[j]).id() == id {
            let j = choose|j: int| 0 <= j < waiters.len() && (#[trigger] waiters[j]).id() == id;
            if j < rest.len() {
                assert(rest[j].id() == id);
            }
        }
    }
}

proof fn lemma_dismissed_queue<T, W>(p: PoolView<T, W>, waiters: Seq<WaitResponder>)
    ensures
        after_dismiss(p, waiters).queue == p.queue,
    decreases waiters.len(),
{
    if waiters.len() > 0 {
        lemma_dismissed_queue(p, waiters.drop_last());
    }
}

proof fn lemma_expired_repo<T, W>(
    p: PoolView<T, W>,
    entries: Seq<TimerEntry<Timer>>,
    now: u128,
    lock: ResourceLock,
)
    requires
        held(p.queue.cells, lock),
        queue_inv(p.queue),
        forall|i: int| 0 <= i < entries.len() ==> timer_known(p, (#[trigger] entries[i]).2),
        p.queue.cells.len() + entries.len() <= usize::MAX,
        !p.queue.events.contains(QueueEvent::Disposed(lock)),
    ensures
        ({
            let post = after_timers(p, entries, now);
            &&& p.mgr.repo.contains(lock) ==> post.mgr.repo.contains(lock)
            &&& p.queue.events.contains(QueueEvent::Created(lock)) ==> post.queue.events.contains(
                QueueEvent::Created(lock),
            )
            &&& !post.queue.events.contains(QueueEvent::Disposed(lock))
        }),
    decreases entries.len(),
{
    if entries.len() > 0 {
        let rest = entries.drop_last();
        let entry = entries.last();
        let mid = after_timers(p, rest, now);
        let post = after_timers(p, entries, now);
        assert forall|i: int| 0 <= i < rest.len() implies timer_known(
            p,
            (#[trigger] rest[i]).2,
        ) by {
            assert(rest[i] == entries[i]);
        }
        lemma_expired_repo(p, rest, now, lock);
        lemma_timers_leave(p, rest, now, lock);
        if let Timer::Verify(about) = entry.2 {
            if !(mid.queue.cells[about.id()] is Held) {
                let next = detached(mid.queue, about).lock;
                assert(next != lock);
                if p.mgr.repo.contains(lock) {
                    let i = choose|i: int| 0 <= i < mid.mgr.repo.len() && mid.mgr.repo[i] == lock;
                    assert((other_than(about))(lock));
                    mid.mgr.repo.lemma_filter_contains(other_than(about), i);
                    let moved = after_manager_detach(mid, about);
                    let j = choose|j: int|
                        0 <= j < moved.mgr.repo.len() && moved.mgr.repo[j] == lock;
                    assert(with_lock(moved.mgr.repo, next)[j] == lock);
                    assert(post.mgr.repo[j] == lock);
                }
                let n = mid.queue.events.len() as int;
                assert(post.queue.events == mid.queue.events || post.queue.events.drop_last()
                    =~= mid.queue.events && post.queue.events.last() != QueueEvent::Disposed(lock));
                if p.queue.events.contains(QueueEvent::Created(lock)) {
                    let k = choose|k: int|
                        0 <= k < n && mid.queue.events[k] == QueueEvent::Created(lock);
                    assert(post.queue.events[k] == QueueEvent::Created(lock));
                }
                if post.queue.events.contains(QueueEvent::Disposed(lock)) {
                    let k = choose|k: int|
                        0 <= k < post.queue.events.len() && post.queue.events[k]
                            == QueueEvent::Disposed(lock);
                    if k < n {
                        assert(mid.queue.events[k] == QueueEvent::Disposed(lock));
                    }
                }
            }
        }
    }
}

proof fn lemma_events_keep(m: ManagerView, events: Seq<QueueEvent>, lock: ResourceLock)
    requires
        !events.contains(QueueEvent::Disposed(lock)),
    ensures
        m.repo.contains(lock) || events.contains(QueueEvent::Created(lock)) ==> after_events(
            m,
            events,
        ).repo.contains(lock),
    decreases events.len(),
{
    if events.len() > 0 {
        let rest = events.drop_last();
        let last = events.last();
        assert(events[events.len() - 1] == last);
        assert(!rest.contains(QueueEvent::Disposed(lock))) by {
            if rest.contains(QueueEvent::Disposed(lock)) {
                let k = choose|k: int|
                    0 <= k < rest.len() && rest[k] == QueueEvent::Disposed(lock);
                assert(events[k] == QueueEvent::Disposed(lock));
            }
        }
        assert(last != QueueEvent::Disposed(lock));
        lemma_events_keep(m, rest, lock);
        let mid = after_events(m, rest);
        if mid.repo.contains(lock) {
            let i = choose|i: int| 0 <= i < mid.repo.len() && mid.repo[i] == lock;
            match last {
                QueueEvent::Created(other) => {
                    assert(with_lock(mid.repo, other)[i] == lock);
                },
                QueueEvent::Disposed(other) => {
                    assert((other_than(other))(lock));
                    mid.repo.lemma_filter_contains(other_than(other), i);
                },
                QueueEvent::Verify(_, _) => {},
            }
        } else if events.contains(QueueEvent::Created(lock)) {
            let k = choose|k: int| 0 <= k < events.len() && events[k] == QueueEvent::Created(lock);
            if k < rest.len() {
                assert(rest[k] == QueueEvent::Created(lock));
            }
            assert(last == QueueEvent::Created(lock));
            assert(mid.repo.push(lock)[mid.repo.len() as int] == lock);
        }
    }
}

/// The manager does not forget a resource that is in use and was not disposed of, and
/// takes note of every new one.
pub proof fn law_used_is_remembered<T, W>(
    p: PoolView<T, W>,
    now: u128,
    post: PoolView<T, W>,
    rest: Rest,
    lock: ResourceLock,
)
    requires
        pool_inv(p),
        held(p.queue.cells, lock),
        p.mgr.repo.contains(lock) || p.queue.events.contains(QueueEvent::Created(lock)),
        !p.queue.events.contains(QueueEvent::Disposed(lock)),
        p.queue.cells.len() + p.mgr.timers.len() <= usize::MAX,
        done(p, now, post, rest),
    ensures
        post.mgr.repo.contains(lock),
        rest is Wait,
{
    let on_time = after_expiry(p, now);
    law_used_is_left_alone(p, now, lock);
    let start = with_mgr(p, ManagerView { timers: remaining(p.mgr.timers, now), ..p.mgr });
    let entries = expired(p.mgr.timers, now);
    law_split(p.mgr.timers, now);
    assert forall|j: int| 0 <= j < entries.len() implies timer_known(
        start,
        (#[trigger] entries[j]).2,
    ) by {
        assert(entries[j] == p.mgr.timers[j]);
        assert(timer_known(p, p.mgr.timers[j].2));
    }
    lemma_expired_repo(start, entries, now, lock);
    lemma_events_keep(on_time.mgr, on_time.queue.events, lock);
    let news = after_news(on_time);
    lemma_requests_repo(news.mgr, news.acquire_timeout, news.registers);
    let told = after_inbox(news);
    let busy = with_queue(
        told,
        QueueView { busy: told.mgr.waiters.len() > 0, ..told.queue },
    );
    lemma_all_served(busy, now);
    let after = after_waiters(told, now);
    assert(after.mgr.repo.contains(lock));
    lemma_evicted(after, after.mgr.repo);
    let cells = after_check(after).queue.cells;
    let checked = after_check(after);
    lemma_last_timers_queue(checked, checked.mgr.timers);
    lemma_dismissed_queue(after_last_timers(checked, checked.mgr.timers), checked.mgr.waiters);
    assert(held(cells, lock));
    assert((guarding(cells))(lock));
    let i = choose|i: int| 0 <= i < after.mgr.repo.len() && after.mgr.repo[i] == lock;
    after.mgr.repo.lemma_filter_contains(guarding(cells), i);
    assert(after_check(after).mgr.repo.contains(lock));
}

/// Whoever asks to learn when the pool is closed down is put down, with the time, behind
/// those who asked for something before. Nothing else changes.
pub proof fn law_shutdown_request_is_put_down<T, W>(p: PoolView<T, W>, expire: u128)
    requires
        p.shutdowns.len() < usize::MAX,
    ensures
        ({
            let post = after_ask_shutdown(p, expire);
            let to = WaitResponder::at(p.shutdowns.len() as usize);
            &&& post == (PoolView {
                registers: p.registers.push(Register::Shutdown(expire, to)),
                shutdowns: post.shutdowns,
                ..p
            })
            &&& post.shutdowns.len() == p.shutdowns.len() + 1
            &&& post.shutdowns.drop_last() == p.shutdowns
            &&& post.shutdowns.last().open && wait_inv(post.shutdowns.last()) && arrives(
                post.shutdowns.last(),
            )
        }),
{
    let post = after_ask_shutdown(p, expire);
    assert(post.shutdowns.drop_last() =~= p.shutdowns);
}

/// The manager forgets a lock only if it guards nothing any more. It forgets all of those
/// when the pool is closed.
pub proof fn law_only_empty_locks_are_forgotten<T, W>(p: PoolView<T, W>, lock: ResourceLock)
    ensures
        after_check(p).mgr.repo.contains(lock) ==> p.mgr.repo.contains(lock),
        p.mgr.repo.contains(lock) && !vacant(after_check(p).queue.cells, lock) ==> after_check(
            p,
        ).mgr.repo.contains(lock),
        p.state is Shutdown && vacant(after_check(p).queue.cells, lock) ==> !after_check(
            p,
        ).mgr.repo.contains(lock),
{
    let cells = after_check(p).queue.cells;
    let kept = after_evictions(p, p.mgr.repo).mgr.repo;
    lemma_evictions_repo(p, p.mgr.repo);
    lemma_filter(p.mgr.repo, guarding(cells));
    if p.mgr.repo.contains(lock) {
        let i = choose|i: int| 0 <= i < p.mgr.repo.len() && p.mgr.repo[i] == lock;
        if !vacant(cells, lock) {
            assert((guarding(cells))(lock));
            p.mgr.repo.lemma_filter_contains(guarding(cells), i);
        }
    }
    if after_check(p).mgr.repo.contains(lock) && p.state is Shutdown {
        let repo = after_check(p).mgr.repo;
        let i = choose|i: int| 0 <= i < repo.len() && repo[i] == lock;
        assert((guarding(cells))(kept.filter(guarding(cells))[i]));
    }
}

proof fn lemma_evictions_repo<T, W>(p: PoolView<T, W>, locks: Seq<ResourceLock>)
    ensures
        after_evictions(p, locks).mgr == p.mgr,
    decreases locks.len(),
{
    if locks.len() > 0 {
        lemma_evictions_repo(p, locks.drop_last());
    }
}

proof fn lemma_last_closes<T, W>(p: PoolView<T, W>, timers: Seq<TimerEntry<Timer>>, i: int)
    requires
        0 <= i < timers.len(),
        timers[i].2 is Waiter,
        forall|j: int| 0 <= j < timers.len() ==> timer_known(p, (#[trigger] timers[j]).2),
    ensures
        after_last_timers(p, timers).waits.len() == p.waits.len(),
        !after_last_timers(p, timers).waits[timers[i].2->Waiter_0.id()].open,
    decreases timers.len(),
{
    let rest = timers.drop_last();
    assert forall|j: int| 0 <= j < rest.len() implies timer_known(p, (#[trigger] rest[j]).2) by {
        assert(rest[j] == timers[j]);
    }
    lemma_last_length(p, rest);
    assert(timer_known(p, timers[i].2));
    assert(timer_known(p, timers[timers.len() - 1].2));
    if i < rest.len() {
        assert(rest[i] == timers[i]);
        lemma_last_closes(p, rest, i);
    }
}

proof fn lemma_last_length<T, W>(p: PoolView<T, W>, timers: Seq<TimerEntry<Timer>>)
    requires
        forall|j: int| 0 <= j < timers.len() ==> timer_known(p, (#[trigger] timers[j]).2),
    ensures
        after_last_timers(p, timers).waits.len() == p.waits.len(),
    decreases timers.len(),
{
    if timers.len() > 0 {
        let rest = timers.drop_last();
        assert forall|j: int| 0 <= j < rest.len() implies timer_known(
            p,
            (#[trigger] rest[j]).2,
        ) by {
            assert(rest[j] == timers[j]);
        }
        lemma_last_length(p, rest);
        assert(timer_known(p, timers[timers.len() - 1].2));
    }
}

/// A wait for which a timer is set when the manager stops ends there: the timer is not
/// dropped without a word.
pub proof fn law_timed_wait_ends_with_the_pool<T, W>(p: PoolView<T, W>, i: int)
    requires
        pool_inv(p),
        0 <= i < p.mgr.timers.len(),
        p.mgr.timers[i].2 is Waiter,
    ensures
        !after_last_timers(p, p.mgr.timers).waits[p.mgr.timers[i].2->Waiter_0.id()].open,
{
    lemma_last_closes(p, p.mgr.timers, i);
}

/// A lock whose resource was disposed of is forgotten as soon as the manager learns of it,
/// unless something is created behind it later.
pub proof fn law_disposed_is_forgotten<T, W>(p: PoolView<T, W>, lock: ResourceLock, i: int)
    requires
        0 <= i < p.queue.events.len(),
        p.queue.events[i] == QueueEvent::Disposed(lock),
        forall|j: int|
            i < j < p.queue.events.len() ==> #[trigger] p.queue.events[j] != QueueEvent::Created(
                lock,
            ),
    ensures
        !after_news(p).mgr.repo.contains(lock),
{
    lemma_forgotten(p.mgr, p.queue.events, lock, i);
}

proof fn lemma_forgotten(m: ManagerView, events: Seq<QueueEvent>, lock: ResourceLock, i: int)
    requires
        0 <= i < events.len(),
        events[i] == QueueEvent::Disposed(lock),
        forall|j: int| i < j < events.len() ==> #[trigger] events[j] != QueueEvent::Created(lock),
    ensures
        !after_events(m, events).repo.contains(lock),
    decreases events.len(),
{
    let rest = events.drop_last();
    let mid = after_events(m, rest);
    let repo = after_events(m, events).repo;
    let last = events[events.len() - 1];
    assert(last == events.last());
    if i < rest.len() {
        assert forall|j: int| i < j < rest.len() implies #[trigger] rest[j]
            != QueueEvent::Created(lock) by {
            assert(rest[j] == events[j]);
        }
        lemma_forgotten(m, rest, lock, i);
        assert(last != QueueEvent::Created(lock));
    }
    if repo.contains(lock) {
        let k = choose|k: int| 0 <= k < repo.len() && repo[k] == lock;
        match last {
            QueueEvent::Disposed(gone) => {
                lemma_filter(mid.repo, other_than(gone));
                assert(mid.repo.contains(repo[k]));
                assert((other_than(gone))(repo[k]));
            },
            QueueEvent::Created(new) => {
                if k < mid.repo.len() {
                    assert(mid.repo[k] == lock);
                }
            },
            QueueEvent::Verify(_, _) => {},
        }
    }
}

} // verus!
