//! Who is woken.

use vstd::prelude::*;

use crate::pool::model::{
    after_check, after_dismiss, after_last_timers, after_news, after_requests, after_serve,
    after_waiter, also_woken, is_drained, pool_inv, round, served, timer_expires, timer_known,
    timers_expire, with_mgr, with_shared, Access, ManagerView, PoolView, Register, Rest, Timer,
};
use crate::pool::rounds::{in_range, lemma_parts, lemma_served_mgr, lemma_told_range};
use crate::resource::info::ResourceInfo;
use crate::shared::{after_acquire, next_idle};
use crate::timers::{expired, law_split, remaining, TimerEntry};
use crate::wait::{arrives, awaited, woken_by, WaitResponder};

verus! {

/// One more waker does not take the place of another.
pub proof fn lemma_also_woken<W>(woken: Seq<W>, waker: Option<W>, other: W)
    ensures
        woken.contains(other) ==> also_woken(woken, waker).contains(other),
        waker == Some(other) ==> also_woken(woken, waker).contains(other),
{
    if woken.contains(other) {
        let i = choose|i: int| 0 <= i < woken.len() && woken[i] == other;
        assert(also_woken(woken, waker)[i] == other);
    }
    if waker == Some(other) {
        assert(also_woken(woken, waker)[woken.len() as int] == other);
    }
}

/// Check that somebody who waits is left alone, or woken, on the way from one state of a
/// pool to another.
pub open spec fn alone_or_woken<T, W>(
    p: PoolView<T, W>,
    q: PoolView<T, W>,
    id: int,
    waker: W,
) -> bool {
    &&& q.waits.len() == p.waits.len()
    &&& p.woken.contains(waker) ==> q.woken.contains(waker)
    &&& q.waits[id] == p.waits[id] || q.woken.contains(waker)
}

proof fn lemma_expired<T, W, R: Fn(T, ResourceInfo) -> (T, bool)>(
    p: PoolView<T, W>,
    hook: Option<R>,
    entries: Seq<TimerEntry<Timer>>,
    now: u128,
    post: PoolView<T, W>,
    id: int,
    waker: W,
)
    requires
        timers_expire(p, hook, entries, now, post),
        0 <= id < p.waits.len(),
        woken_by(p.waits[id]) == Some(waker),
        forall|i: int| 0 <= i < entries.len() ==> timer_known(p, (#[trigger] entries[i]).2),
    ensures
        alone_or_woken(p, post, id, waker),
        post.drains.len() == p.drains.len(),
    decreases entries.len(),
{
    if entries.len() > 0 {
        let rest = entries.drop_last();
        let mid = choose|mid: PoolView<T, W>|
            timers_expire(p, hook, rest, now, mid) && #[trigger] timer_expires(
                mid,
                hook,
                entries.last(),
                now,
                post,
            );
        assert forall|i: int| 0 <= i < rest.len() implies timer_known(
            p,
            (#[trigger] rest[i]).2,
        ) by {
            assert(rest[i] == entries[i]);
        }
        lemma_expired(p, hook, rest, now, mid, id, waker);
        assert(timer_known(p, entries[entries.len() - 1].2));
        match entries.last().2 {
            Timer::Waiter(to) => {
                lemma_also_woken(mid.woken, woken_by(mid.waits[to.id()]), waker);
            },
            Timer::Drain(to) => {
                lemma_also_woken(mid.woken, woken_by(mid.drains[to.id()]), waker);
            },
            Timer::Verify(_) => {},
        }
    }
}

proof fn lemma_served<T, W>(p: PoolView<T, W>, spare: Option<Access<T>>, id: int, waker: W)
    requires
        in_range(p.mgr.waiters, p.waits.len()),
        0 <= id < p.waits.len(),
        woken_by(p.waits[id]) == Some(waker) || p.woken.contains(waker),
    ensures
        alone_or_woken(p, served(p, spare).0, id, waker),
    decreases p.mgr.waiters.len(),
{
    if p.mgr.waiters.len() > 0 {
        let to = p.mgr.waiters[0];
        let tail = p.mgr.waiters.drop_first();
        assert forall|i: int| 0 <= i < tail.len() implies 0 <= (#[trigger] tail[i]).id()
            < p.waits.len() by {
            assert(tail[i] == p.mgr.waiters[i + 1]);
        }
        let left = if arrives(p.waits[to.id()]) {
            None
        } else if spare is Some {
            spare
        } else {
            next_idle(p.shared)
        };
        lemma_also_woken(p.woken, woken_by(p.waits[to.id()]), waker);
        if !p.waits[to.id()].open {
            lemma_served(after_waiter(p), spare, id, waker);
        } else if spare is Some {
            lemma_served(after_waiter(after_serve(p, to, spare->0)), left, id, waker);
        } else if next_idle(p.shared) is Some {
            let q = with_shared(p, after_acquire(p.shared));
            lemma_served(
                after_waiter(after_serve(q, to, next_idle(p.shared)->0)),
                left,
                id,
                waker,
            );
        }
    }
}

proof fn lemma_last<T, W>(p: PoolView<T, W>, timers: Seq<TimerEntry<Timer>>, id: int, waker: W)
    requires
        0 <= id < p.waits.len(),
        woken_by(p.waits[id]) == Some(waker) || p.woken.contains(waker),
        forall|i: int|
            0 <= i < timers.len() ==> ((#[trigger] timers[i]).2 matches Timer::Waiter(to) ==> 0
                <= to.id() < p.waits.len()),
    ensures
        alone_or_woken(p, after_last_timers(p, timers), id, waker),
        after_last_timers(p, timers).mgr == p.mgr,
    decreases timers.len(),
{
    if timers.len() > 0 {
        let rest = timers.drop_last();
        assert forall|i: int| 0 <= i < rest.len() implies (
        (#[trigger] rest[i]).2 matches Timer::Waiter(to) ==> 0 <= to.id() < p.waits.len()) by {
            assert(rest[i] == timers[i]);
        }
        lemma_last(p, rest, id, waker);
        let mid = after_last_timers(p, rest);
        assert(timers[timers.len() - 1] == timers.last());
        match timers.last().2 {
            Timer::Waiter(to) => {
                lemma_also_woken(mid.woken, woken_by(mid.waits[to.id()]), waker);
            },
            Timer::Drain(to) => {
                lemma_also_woken(mid.woken, woken_by(mid.drains[to.id()]), waker);
            },
            Timer::Verify(_) => {},
        }
    }
}

proof fn lemma_dismissed<T, W>(p: PoolView<T, W>, waiters: Seq<WaitResponder>, id: int, waker: W)
    requires
        0 <= id < p.waits.len(),
        woken_by(p.waits[id]) == Some(waker) || p.woken.contains(waker),
        in_range(waiters, p.waits.len()),
    ensures
        alone_or_woken(p, after_dismiss(p, waiters), id, waker),
    decreases waiters.len(),
{
    if waiters.len() > 0 {
        let rest = waiters.drop_last();
        assert forall|i: int| 0 <= i < rest.len() implies 0 <= (#[trigger] rest[i]).id()
            < p.waits.len() by {
            assert(rest[i] == waiters[i]);
        }
        lemma_dismissed(p, rest, id, waker);
        let mid = after_dismiss(p, rest);
        assert(0 <= waiters[waiters.len() - 1].id() < p.waits.len());
        lemma_also_woken(mid.woken, woken_by(mid.waits[waiters.last().id()]), waker);
    }
}

proof fn lemma_requests<T, W>(p: PoolView<T, W>, registers: Seq<Register>)
    ensures
        after_requests(p, registers).woken == p.woken,
    decreases registers.len(),
{
    if registers.len() > 0 {
        lemma_requests(p, registers.drop_last());
    }
}

/// Nobody sleeps through an answer: whoever waits for a resource and left a waker is woken
/// in the round in which anything happens to the wait, be it that a resource is sent, that
/// the time is over, or that the manager stops.
pub proof fn law_answered_is_woken<T, W, R: Fn(T, ResourceInfo) -> (T, bool)>(
    p: PoolView<T, W>,
    hook: Option<R>,
    now: u128,
    post: PoolView<T, W>,
    rest: Rest,
    id: int,
    waker: W,
)
    requires
        pool_inv(p),
        0 <= id < p.waits.len(),
        woken_by(p.waits[id]) == Some(waker),
        round(p, hook, now, post, rest),
    ensures
        post.waits[id] == p.waits[id] || post.woken.contains(waker),
        p.woken.contains(waker) ==> post.woken.contains(waker),
{
    let (on_time, after) = lemma_parts(p, hook, now, post, rest);
    let start = with_mgr(p, ManagerView { timers: remaining(p.mgr.timers, now), ..p.mgr });
    let entries = expired(p.mgr.timers, now);
    law_split(p.mgr.timers, now);
    assert forall|i: int| 0 <= i < entries.len() implies timer_known(
        start,
        (#[trigger] entries[i]).2,
    ) by {
        assert(entries[i] == p.mgr.timers[i]);
        assert(timer_known(p, p.mgr.timers[i].2));
    }
    lemma_expired(start, hook, entries, now, on_time, id, waker);
    let told = lemma_told_range(p, hook, now, on_time);
    let news = after_news(on_time);
    lemma_requests(PoolView { registers: Seq::empty(), ..news }, news.registers);
    lemma_waits(PoolView { registers: Seq::empty(), ..news }, news.registers);
    lemma_served(told, None, id, waker);
    lemma_served_mgr(told, None);
    assert(alone_or_woken(told, after, id, waker));
    let q = after_check(after);
    if is_drained(q) {
        assert forall|i: int| 0 <= i < q.mgr.timers.len() implies (
        (#[trigger] q.mgr.timers[i]).2 matches Timer::Waiter(to) ==> 0 <= to.id()
            < q.waits.len()) by {
            assert(timer_known(after, after.mgr.timers[i].2));
        }
        lemma_last(q, q.mgr.timers, id, waker);
        let last = after_last_timers(q, q.mgr.timers);
        assert forall|i: int| 0 <= i < q.mgr.waiters.len() implies 0 <= (
        #[trigger] q.mgr.waiters[i]).id() < last.waits.len() by {
            assert(awaited(after.waits, after.mgr.waiters[i]));
        }
        lemma_dismissed(last, q.mgr.waiters, id, waker);
    }
}

proof fn lemma_waits<T, W>(p: PoolView<T, W>, registers: Seq<Register>)
    ensures
        after_requests(p, registers).waits == p.waits,
    decreases registers.len(),
{
    if registers.len() > 0 {
        lemma_waits(p, registers.drop_last());
    }
}

} // verus!
