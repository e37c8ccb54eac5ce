//! Who is woken.

use vstd::prelude::*;

use crate::arp::model::Timer;
use crate::lifecycle::model::{
    after_check, after_dismiss, after_expiry, after_last_timers, after_serve, after_timers,
    after_waiter, after_waiters, is_emptied, pool_inv, served, timer_known, with_mgr, with_queue,
    ManagerView, PoolView,
};
use crate::lifecycle::queue::{after_acquire, next_idle, QueueView};
use crate::lifecycle::rounds::{done, lemma_evicted, lemma_told_range};
use crate::pool::model::Rest;
use crate::pool::rounds::in_range;
use crate::pool::waking::lemma_also_woken;
use crate::timers::{expired, law_split, remaining, TimerEntry};
use crate::wait::{arrives, awaited, woken_by, WaitResponder};

verus! {

/// Check that somebody who waits is left alone, or woken, on the way from one state of a
/// pool to another.
pub open spec fn alone_or_woken<T, W>(
    p: PoolView<T, W>,
    q: PoolView<T, W>,
    id: int,
    waker: W,
) -> bool {
    &&& q.waits.len() == p.waits.len()
    &&& p.woken.contains(waker) ==> q.woken.contains(waker)
    &&& q.waits[id] == p.waits[id] || q.woken.contains(waker)
}

proof fn lemma_expired<T, W>(
    p: PoolView<T, W>,
    entries: Seq<TimerEntry<Timer>>,
    now: u128,
    id: int,
    waker: W,
)
    requires
        0 <= id < p.waits.len(),
        woken_by(p.waits[id]) == Some(waker),
        forall|i: int| 0 <= i < entries.len() ==> timer_known(p, (#[trigger] entries[i]).2),
    ensures
        alone_or_woken(p, after_timers(p, entries, now), id, waker),
        after_timers(p, entries, now).shutdowns.len() == p.shutdowns.len(),
    decreases entries.len(),
{
    if entries.len() > 0 {
        let rest = entries.drop_last();
        let mid = after_timers(p, rest, now);
        assert forall|i: int| 0 <= i < rest.len() implies timer_known(
            p,
            (#[trigger] rest[i]).2,
        ) by {
            assert(rest[i] == entries[i]);
        }
        lemma_expired(p, rest, now, id, waker);
        assert(timer_known(p, entries[entries.len() - 1].2));
        match entries.last().2 {
            Timer::Waiter(to) => {
                lemma_also_woken(mid.woken, woken_by(mid.waits[to.id()]), waker);
            },
            Timer::Shutdown(to) => {
                lemma_also_woken(mid.woken, woken_by(mid.shutdowns[to.id()]), waker);
            },
            Timer::Verify(_) => {},
        }
    }
}

proof fn lemma_served<T, W>(p: PoolView<T, W>, now: u128, id: int, waker: W)
    requires
        in_range(p.mgr.waiters, p.waits.len()),
        0 <= id < p.waits.len(),
        woken_by(p.waits[id]) == Some(waker) || p.woken.contains(waker),
    ensures
        alone_or_woken(p, served(p, now), id, waker),
        served(p, now).mgr.timers == p.mgr.timers,
    decreases p.mgr.waiters.len(),
{
    if p.mgr.waiters.len() > 0 {
        let to = p.mgr.waiters[0];
        let tail = p.mgr.waiters.drop_first();
        assert forall|i: int| 0 <= i < tail.len() implies 0 <= (#[trigger] tail[i]).id()
            < p.waits.len() by {
            assert(tail[i] == p.mgr.waiters[i + 1]);
        }
        lemma_also_woken(p.woken, woken_by(p.waits[to.id()]), waker);
        if !arrives(p.waits[to.id()]) {
            lemma_served(after_waiter(p), now, id, waker);
        } else if next_idle(p.queue, now) is Some {
            let q = with_queue(p, after_acquire(p.queue));
            lemma_served(
                after_waiter(after_serve(q, to, next_idle(p.queue, now)->0)),
                now,
                id,
                waker,
            );
        }
    }
}

proof fn lemma_last<T, W>(p: PoolView<T, W>, timers: Seq<TimerEntry<Timer>>, id: int, waker: W)
    requires
        0 <= id < p.waits.len(),
        woken_by(p.waits[id]) == Some(waker) || p.woken.contains(waker),
        forall|i: int|
            0 <= i < timers.len() ==> ((#[trigger] timers[i]).2 matches Timer::Waiter(to) ==> 0
                <= to.id() < p.waits.len()),
    ensures
        alone_or_woken(p, after_last_timers(p, timers), id, waker),
        after_last_timers(p, timers).mgr == p.mgr,
    decreases timers.len(),
{
    if timers.len() > 0 {
        let rest = timers.drop_last();
        assert forall|i: int| 0 <= i < rest.len() implies (
        (#[trigger] rest[i]).2 matches Timer::Waiter(to) ==> 0 <= to.id() < p.waits.len()) by {
            assert(rest[i] == timers[i]);
        }
        lemma_last(p, rest, id, waker);
        let mid = after_last_timers(p, rest);
        assert(timers[timers.len() - 1] == timers.last());
        match timers.last().2 {
            Timer::Waiter(to) => {
                lemma_also_woken(mid.woken, woken_by(mid.waits[to.id()]), waker);
            },
            Timer::Shutdown(to) => {
                lemma_also_woken(mid.woken, woken_by(mid.shutdowns[to.id()]), waker);
            },
            Timer::Verify(_) => {},
        }
    }
}

proof fn lemma_dismissed<T, W>(p: PoolView<T, W>, waiters: Seq<WaitResponder>, id: int, waker: W)
    requires
        0 <= id < p.waits.len(),
        woken_by(p.waits[id]) == Some(waker) || p.woken.contains(waker),
        in_range(waiters, p.waits.len()),
    ensures
        alone_or_woken(p, after_dismiss(p, waiters), id, waker),
    decreases waiters.len(),
{
    if waiters.len() > 0 {
        let rest = waiters.drop_last();
        assert forall|i: int| 0 <= i < rest.len() implies 0 <= (#[trigger] rest[i]).id()
            < p.waits.len() by {
            assert(rest[i] == waiters[i]);
        }
        lemma_dismissed(p, rest, id, waker);
        let mid = after_dismiss(p, rest);
        assert(0 <= waiters[waiters.len() - 1].id() < p.waits.len());
        lemma_also_woken(mid.woken, woken_by(mid.waits[waiters.last().id()]), waker);
    }
}

/// Nobody sleeps through an answer: whoever waits for a resource and left a waker is woken
/// in the round in which anything happens to the wait, be it that a resource is sent, that
/// the time is over, or that the manager stops.
pub proof fn law_answered_is_woken<T, W>(
    p: PoolView<T, W>,
    now: u128,
    post: PoolView<T, W>,
    rest: Rest,
    id: int,
    waker: W,
)
    requires
        pool_inv(p),
        0 <= id < p.waits.len(),
        woken_by(p.waits[id]) == Some(waker),
        done(p, now, post, rest),
    ensures
        post.waits[id] == p.waits[id] || post.woken.contains(waker),
        p.woken.contains(waker) ==> post.woken.contains(waker),
{
    let on_time = after_expiry(p, now);
    let start = with_mgr(p, ManagerView { timers: remaining(p.mgr.timers, now), ..p.mgr });
    let entries = expired(p.mgr.timers, now);
    law_split(p.mgr.timers, now);
    assert forall|i: int| 0 <= i < entries.len() implies timer_known(
        start,
        (#[trigger] entries[i]).2,
    ) by {
        assert(entries[i] == p.mgr.timers[i]);
        assert(timer_known(p, p.mgr.timers[i].2));
    }
    lemma_expired(start, entries, now, id, waker);
    let told = lemma_told_range(p, now, on_time);
    let busy = with_queue(
        told,
        QueueView { busy: told.mgr.waiters.len() > 0, ..told.queue },
    );
    lemma_served(busy, now, id, waker);
    let after = after_waiters(told, now);
    assert(alone_or_woken(told, after, id, waker));
    lemma_evicted(after, after.mgr.repo);
    let q = after_check(after);
    if is_emptied(q) {
        assert forall|i: int| 0 <= i < q.mgr.timers.len() implies (
        (#[trigger] q.mgr.timers[i]).2 matches Timer::Waiter(to) ==> 0 <= to.id()
            < q.waits.len()) by {
            assert(timer_known(after, after.mgr.timers[i].2));
        }
        lemma_last(q, q.mgr.timers, id, waker);
        let last = after_last_timers(q, q.mgr.timers);
        assert forall|i: int| 0 <= i < q.mgr.waiters.len() implies 0 <= (
        #[trigger] q.mgr.waiters[i]).id() < last.waits.len() by {
            assert(awaited(after.waits, after.mgr.waiters[i]));
        }
        lemma_dismissed(last, q.mgr.waiters, id, waker);
    }
}

} // verus!
