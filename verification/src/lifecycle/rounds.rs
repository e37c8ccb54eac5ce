//! What a round of the manager does for those who wait.

use vstd::prelude::*;

use crate::arp::model::{next_check, Register, Timer};
use crate::arp::rounds::{
    calls_off, incoming, is_set, is_timed, lemma_due, lemma_in_range, lemma_inserted,
};
use crate::dropshot::{attempt, Attempt, Canceled};
use crate::lifecycle::model::{
    after_check, after_dismiss, after_events, after_evictions, after_expiry, after_inbox,
    after_last_timers, after_news, after_requests, after_round, after_serve, after_timers,
    after_waiter, after_waiters, after_work, can_create, is_emptied, pool_inv, register_known,
    rest_after, served, timer_known, with_mgr, with_queue, Access, ManagerView, PoolView, Resolve,
};
use crate::lifecycle::queue::{after_acquire, next_idle, QueueEvent, QueueView};
use crate::lifecycle::requests::once_more;
use crate::pool::model::{lemma_live_idle, Rest};
use crate::pool::rounds::{
    at_hand, each_its_own, in_range, lemma_live_keeps, lemma_members, lemma_same_line, lemma_tail,
    offered, was_sent,
};
use crate::pool::turns::reachable;
use crate::resource::lock::{known, ready, Cell, GuardView, ResourceGuard, ResourceLock};
use crate::resource::operation::ResourceResolve;
use crate::shared::live_idle;
use crate::timers::{expired, law_first_is_earliest, law_split, remaining, TimerEntry};
use crate::wait::{after_cancel, after_reply, arrives, awaited, wait_inv, WaitResponder};

verus! {

broadcast use {
    ResourceLock::lemma_at,
    ResourceLock::lemma_same,
    ResourceGuard::lemma_of,
    ResourceGuard::lemma_view,
};

/// Check that somebody was sent a resource.
pub open spec fn got<T, W>(p: PoolView<T, W>, to: WaitResponder, guard: Access<T>) -> bool {
    attempt(p.waits[to.id()].shot, true) == Attempt::<Resolve<T>>::Ready(
        Ok(ResourceResolve::Resource(Some(ResourceGuard::of(guard)))),
    )
}

/// Check that a round of the manager leads from one state of a pool to another, and how
/// the manager rests then.
pub open spec fn done<T, W>(
    p: PoolView<T, W>,
    now: u128,
    post: PoolView<T, W>,
    rest: Rest,
) -> bool {
    &&& post == after_round(after_work(p, now))
    &&& rest == rest_after(after_work(p, now), next_check(after_expiry(p, now).mgr.timers))
    &&& pool_inv(after_expiry(p, now))
    &&& pool_inv(after_work(p, now))
}

/// A resource as it is handed out at a time.
pub open spec fn dealt<T>(guard: Access<T>, now: u128) -> Access<T> {
    GuardView { info: once_more(guard.info, now), ..guard }
}

proof fn lemma_offered<T>(s: QueueView<T>, now: u128)
    ensures
        next_idle(s, now) is None ==> offered(s.idle, s.cells).len() == 0,
        next_idle(s, now) is Some ==> offered(s.idle, s.cells).len() > 0 && next_idle(s, now)
            == Some(dealt(offered(s.idle, s.cells)[0], now)) && offered(
            after_acquire(s).idle,
            after_acquire(s).cells,
        ) == offered(s.idle, s.cells).drop_first(),
    decreases s.idle.len(),
{
    if s.idle.len() > 0 {
        if !ready(s.cells, s.idle[0]) {
            lemma_offered(QueueView { idle: s.idle.drop_first(), ..s }, now);
        } else {
            assert(offered(after_acquire(s).idle, after_acquire(s).cells) =~= offered(
                s.idle,
                s.cells,
            ).drop_first());
        }
    }
}

/// What serving those who wait does to replies.
pub proof fn lemma_closed<T, W>(p: PoolView<T, W>, now: u128, id: int)
    requires
        in_range(p.mgr.waiters, p.waits.len()),
    ensures
        served(p, now).waits.len() == p.waits.len(),
        0 <= id < p.waits.len() && !arrives(p.waits[id]) ==> served(p, now).waits[id]
            == p.waits[id],
    decreases p.mgr.waiters.len(),
{
    if p.mgr.waiters.len() > 0 {
        let to = p.mgr.waiters[0];
        let tail = p.mgr.waiters.drop_first();
        assert forall|i: int| 0 <= i < tail.len() implies 0 <= (#[trigger] tail[i]).id()
            < p.waits.len() by {
            assert(tail[i] == p.mgr.waiters[i + 1]);
        }
        if !arrives(p.waits[to.id()]) {
            lemma_closed(after_waiter(p), now, id);
        } else if next_idle(p.queue, now) is Some {
            let q = with_queue(p, after_acquire(p.queue));
            lemma_closed(after_waiter(after_serve(q, to, next_idle(p.queue, now)->0)), now, id);
        }
    }
}

/// What serving those who wait leaves alone.
pub proof fn lemma_all_served<T, W>(p: PoolView<T, W>, now: u128)
    ensures
        ({
            let post = served(p, now);
            &&& post.mgr.waiters.len() == 0 || post.queue.idle.len() == 0
            &&& post.mgr == (ManagerView { waiters: post.mgr.waiters, ..p.mgr })
            &&& post.state == p.state
            &&& post.shutdowns == p.shutdowns
            &&& post.handles == p.handles
            &&& post.queue.count == p.queue.count
            &&& post.queue.busy == p.queue.busy
        }),
    decreases p.mgr.waiters.len(),
{
    if p.mgr.waiters.len() > 0 {
        let to = p.mgr.waiters[0];
        if !arrives(p.waits[to.id()]) {
            lemma_all_served(after_waiter(p), now);
        } else if next_idle(p.queue, now) is Some {
            let q = with_queue(p, after_acquire(p.queue));
            lemma_all_served(after_waiter(after_serve(q, to, next_idle(p.queue, now)->0)), now);
        }
    }
}

proof fn lemma_shared_out<T, W>(p: PoolView<T, W>, now: u128, i: int)
    requires
        each_its_own(p.mgr.waiters, p.waits),
    ensures
        ({
            let line = reachable(p.mgr.waiters, p.waits);
            let goods = offered(p.queue.idle, p.queue.cells);
            let post = served(p, now);
            &&& 0 <= i < line.len() && i < goods.len() ==> got(post, line[i], dealt(goods[i], now))
                && !post.waits[line[i].id()].open
            &&& goods.len() <= i < line.len() ==> post.waits[line[i].id()]
                == p.waits[line[i].id()]
            &&& reachable(post.mgr.waiters, post.waits) == (if goods.len() < line.len() {
                line.skip(goods.len() as int)
            } else {
                Seq::empty()
            })
        }),
    decreases p.mgr.waiters.len(),
{
    let line = reachable(p.mgr.waiters, p.waits);
    let goods = offered(p.queue.idle, p.queue.cells);
    lemma_offered(p.queue, now);
    if p.mgr.waiters.len() > 0 {
        let to = p.mgr.waiters[0];
        lemma_tail(p.mgr.waiters, p.waits);
        if !arrives(p.waits[to.id()]) {
            lemma_shared_out(after_waiter(p), now, i);
        } else if next_idle(p.queue, now) is Some {
            let guard = next_idle(p.queue, now)->0;
            let taken = with_queue(p, after_acquire(p.queue));
            let q = after_waiter(after_serve(taken, to, guard));
            lemma_same_line(q.mgr.waiters, p.waits, q.waits);
            let rest = reachable(q.mgr.waiters, q.waits);
            assert(line.drop_first() =~= rest);
            assert(q.waits[to.id()] == after_reply(
                p.waits[to.id()],
                ResourceResolve::Resource(Some(ResourceGuard::of(guard))),
            ));
            assert(got(q, to, guard));
            lemma_shared_out(q, now, i - 1);
            assert forall|j: int| 0 <= j < q.mgr.waiters.len() implies 0 <= (
            #[trigger] q.mgr.waiters[j]).id() < q.waits.len() by {}
            lemma_closed(q, now, to.id());
            assert(served(p, now) == served(q, now));
            if 0 < i < line.len() {
                lemma_members(q.mgr.waiters, q.waits);
                assert(line[i] == rest[i - 1]);
                assert(q.mgr.waiters.contains(rest[i - 1]));
                let j = choose|j: int| 0 <= j < q.mgr.waiters.len() && q.mgr.waiters[j]
                    == rest[i - 1];
                assert(q.waits[q.mgr.waiters[j].id()] == p.waits[q.mgr.waiters[j].id()]);
            }
            if goods.len() < line.len() {
                assert(rest.skip(goods.len() - 1) =~= line.skip(goods.len() as int));
            }
        } else {
            assert(line.skip(0) =~= line);
        }
    }
}

/// What disposing of all resources that are not in use leaves alone.
pub proof fn lemma_evicted<T, W>(p: PoolView<T, W>, locks: Seq<ResourceLock>)
    requires
        forall|i: int| 0 <= i < locks.len() ==> known(p.queue.cells, #[trigger] locks[i]),
    ensures
        ({
            let post = after_evictions(p, locks);
            &&& post == (PoolView {
                spawned: post.spawned,
                queue: QueueView { cells: post.queue.cells, ..p.queue },
                ..p
            })
            &&& post.queue.cells.len() == p.queue.cells.len()
            &&& forall|lock: ResourceLock| #[trigger]
                ready(post.queue.cells, lock) && known(p.queue.cells, lock) ==> ready(
                    p.queue.cells,
                    lock,
                )
        }),
    decreases locks.len(),
{
    if locks.len() > 0 {
        let rest = locks.drop_last();
        assert forall|i: int| 0 <= i < rest.len() implies known(
            p.queue.cells,
            #[trigger] rest[i],
        ) by {
            assert(rest[i] == locks[i]);
        }
        lemma_evicted(p, rest);
        assert(known(p.queue.cells, locks[locks.len() - 1]));
        let mid = after_evictions(p, rest);
        let post = after_evictions(p, locks);
        assert forall|lock: ResourceLock| #[trigger]
            ready(post.queue.cells, lock) && known(p.queue.cells, lock) implies ready(
            p.queue.cells,
            lock,
        ) by {
            assert(ready(mid.queue.cells, lock));
        }
    }
}

/// After a round of the manager, nobody waits while a resource that was returned can
/// be handed out.
pub proof fn law_nobody_waits_in_vain<T, W>(
    p: PoolView<T, W>,
    now: u128,
    post: PoolView<T, W>,
    rest: Rest,
    i: int,
)
    requires
        done(p, now, post, rest),
        post.mgr.waiters.len() > 0,
        0 <= i < post.queue.idle.len(),
    ensures
        !(post.queue.cells[post.queue.idle[i].id()] matches Cell::Free(_, Some(_))),
{
    let on_time = after_expiry(p, now);
    let told = after_inbox(after_news(on_time));
    let busy = with_queue(
        told,
        QueueView { busy: told.mgr.waiters.len() > 0, ..told.queue },
    );
    lemma_all_served(busy, now);
    let after = after_waiters(told, now);
    assert(after.mgr.waiters.len() == 0 || after.queue.idle.len() == 0);
    lemma_evicted(after, after.mgr.repo);
    assert(!is_emptied(after_check(after)));
}

proof fn lemma_events(m: ManagerView, events: Seq<QueueEvent>)
    ensures
        ({
            let after = after_events(m, events);
            &&& after.waiters == m.waiters
            &&& forall|e: TimerEntry<Timer>|
                m.timers.contains(e) ==> #[trigger] after.timers.contains(e)
            &&& forall|i: int|
                0 <= i < events.len() ==> (#[trigger] events[i] matches QueueEvent::Verify(at, lock)
                    ==> is_set(after.timers, at, Timer::Verify(lock)))
        }),
    decreases events.len(),
{
    let after = after_events(m, events);
    if events.len() > 0 {
        let rest = events.drop_last();
        lemma_events(m, rest);
        let mid = after_events(m, rest);
        if let QueueEvent::Verify(at, lock) = events.last() {
            let entry = (at, (mid.timer_id + 1) as usize, Timer::Verify(lock));
            lemma_inserted(mid.timers, entry);
            assert(after.timers.contains(entry));
        }
        assert forall|i: int| 0 <= i < events.len() implies (
        #[trigger] events[i] matches QueueEvent::Verify(at, lock) ==> is_set(
            after.timers,
            at,
            Timer::Verify(lock),
        )) by {
            if events[i] is Verify && i < rest.len() {
                assert(rest[i] == events[i]);
                let at = rest[i]->Verify_0;
                let timer = Timer::Verify(rest[i]->Verify_1);
                let number = choose|number: usize| #[trigger]
                    mid.timers.contains((at, number, timer));
                assert(after.timers.contains((at, number, timer)));
            }
        }
    }
}

proof fn lemma_requests(m: ManagerView, timeout: Option<u128>, registers: Seq<Register>)
    ensures
        ({
            let q = after_requests(m, timeout, registers);
            &&& q.waiters == m.waiters + incoming(registers)
            &&& q.repo == m.repo
            &&& forall|e: TimerEntry<Timer>|
                m.timers.contains(e) ==> #[trigger] q.timers.contains(e)
            &&& forall|i: int|
                0 <= i < registers.len() ==> is_timed(timeout, #[trigger] registers[i], q.timers)
        }),
    decreases registers.len(),
{
    let q = after_requests(m, timeout, registers);
    assert(registers.len() == 0 ==> q.waiters =~= m.waiters + incoming(registers));
    if registers.len() > 0 {
        let rest = registers.drop_last();
        lemma_requests(m, timeout, rest);
        let mid = after_requests(m, timeout, rest);
        let last = registers[registers.len() - 1];
        assert(last == registers.last());
        let number = (mid.timer_id + 1) as usize;
        let entry = match last {
            Register::Shutdown(at, to) => (at, number, Timer::Shutdown(to)),
            Register::Waiter(start, to) => (
                (start + timeout->0) as u128,
                number,
                Timer::Waiter(to),
            ),
        };
        lemma_inserted(mid.timers, entry);
        assert forall|i: int| 0 <= i < registers.len() implies is_timed(
            timeout,
            #[trigger] registers[i],
            q.timers,
        ) by {
            if i < rest.len() {
                assert(rest[i] == registers[i]);
                assert(is_timed(timeout, rest[i], mid.timers));
                assert forall|at: u128, timer: Timer| #[trigger]
                    is_set(mid.timers, at, timer) implies is_set(q.timers, at, timer) by {
                    let n = choose|n: usize| #[trigger] mid.timers.contains((at, n, timer));
                    assert(q.timers.contains((at, n, timer)));
                }
                match registers[i] {
                    Register::Shutdown(at, to) => {
                        assert(is_set(mid.timers, at, Timer::Shutdown(to)));
                    },
                    Register::Waiter(start, to) => {
                        if timeout is Some {
                            assert(is_set(
                                mid.timers,
                                (start + timeout->0) as u128,
                                Timer::Waiter(to),
                            ));
                        }
                    },
                }
            } else if last is Shutdown || timeout is Some {
                assert(q.timers.contains((entry.0, entry.1, entry.2)));
            }
        }
        assert(q.waiters =~= m.waiters + incoming(registers));
    }
}

proof fn lemma_expired<T, W>(
    p: PoolView<T, W>,
    entries: Seq<TimerEntry<Timer>>,
    now: u128,
    id: int,
)
    requires
        forall|i: int| 0 <= i < entries.len() ==> timer_known(p, (#[trigger] entries[i]).2),
    ensures
        ({
            let post = after_timers(p, entries, now);
            &&& post.waits.len() == p.waits.len()
            &&& post.shutdowns.len() == p.shutdowns.len()
            &&& post.queue.cells.len() >= p.queue.cells.len()
            &&& post.mgr.waiters == p.mgr.waiters
            &&& post.mgr.timers == p.mgr.timers
            &&& post.registers == p.registers
            &&& post.acquire_timeout == p.acquire_timeout
            &&& post.handles == p.handles
            &&& post.state == p.state
            &&& p.queue.events.is_prefix_of(post.queue.events)
            &&& 0 <= id < p.waits.len() && (exists|i: int|
                0 <= i < entries.len() && calls_off((#[trigger] entries[i]).2, id))
                ==> post.waits[id] == after_cancel(p.waits[id])
            &&& 0 <= id < p.waits.len() && (forall|i: int|
                0 <= i < entries.len() ==> !calls_off((#[trigger] entries[i]).2, id))
                ==> post.waits[id] == p.waits[id]
        }),
    decreases entries.len(),
{
    if entries.len() > 0 {
        let rest = entries.drop_last();
        let mid = after_timers(p, rest, now);
        assert forall|i: int| 0 <= i < rest.len() implies timer_known(
            p,
            (#[trigger] rest[i]).2,
        ) by {
            assert(rest[i] == entries[i]);
        }
        lemma_expired(p, rest, now, id);
        assert(timer_known(p, entries[entries.len() - 1].2));
        if exists|i: int| 0 <= i < entries.len() && calls_off((#[trigger] entries[i]).2, id) {
            let i = choose|i: int| 0 <= i < entries.len() && calls_off((#[trigger] entries[i]).2, id);
            if i < rest.len() {
                assert(rest[i] == entries[i]);
                assert(calls_off(rest[i].2, id));
            } else if exists|j: int| 0 <= j < rest.len() && calls_off((#[trigger] rest[j]).2, id) {
            } else {
                assert(0 <= id < p.waits.len() ==> mid.waits[id] == p.waits[id]);
            }
        } else {
            assert forall|j: int| 0 <= j < rest.len() implies !calls_off(
                (#[trigger] rest[j]).2,
                id,
            ) by {
                assert(rest[j] == entries[j]);
            }
            assert(!calls_off(entries[entries.len() - 1].2, id));
        }
    }
}

proof fn lemma_last<T, W>(p: PoolView<T, W>, timers: Seq<TimerEntry<Timer>>, id: int)
    requires
        0 <= id < p.waits.len(),
        !p.waits[id].open,
        forall|i: int| 0 <= i < timers.len() ==> timer_known(p, (#[trigger] timers[i]).2),
    ensures
        after_last_timers(p, timers).waits[id] == p.waits[id],
        after_last_timers(p, timers).waits.len() == p.waits.len(),
        after_last_timers(p, timers).mgr == p.mgr,
    decreases timers.len(),
{
    if timers.len() > 0 {
        let rest = timers.drop_last();
        assert forall|i: int| 0 <= i < rest.len() implies timer_known(
            p,
            (#[trigger] rest[i]).2,
        ) by {
            assert(rest[i] == timers[i]);
        }
        lemma_last(p, rest, id);
        assert(timer_known(p, timers[timers.len() - 1].2));
    }
}

proof fn lemma_dismissed<T, W>(p: PoolView<T, W>, waiters: Seq<WaitResponder>, id: int)
    requires
        0 <= id < p.waits.len(),
        !p.waits[id].open,
        forall|i: int|
            0 <= i < waiters.len() ==> 0 <= (#[trigger] waiters[i]).id() < p.waits.len(),
    ensures
        after_dismiss(p, waiters).waits[id] == p.waits[id],
        after_dismiss(p, waiters).waits.len() == p.waits.len(),
    decreases waiters.len(),
{
    if waiters.len() > 0 {
        let rest = waiters.drop_last();
        assert forall|i: int| 0 <= i < rest.len() implies 0 <= (#[trigger] rest[i]).id()
            < p.waits.len() by {
            assert(rest[i] == waiters[i]);
        }
        lemma_dismissed(p, rest, id);
        assert(0 <= waiters[waiters.len() - 1].id() < p.waits.len());
    }
}

/// A wait that is decided stays as it is to the end of a round.
proof fn lemma_round_end<T, W>(p: PoolView<T, W>, id: int)
    requires
        pool_inv(p),
        0 <= id < p.waits.len(),
    ensures
        !p.waits[id].open ==> after_round(p).waits[id] == p.waits[id],
        !is_emptied(after_check(p)) ==> after_round(p).waits == p.waits && after_round(p).mgr.timers
            == p.mgr.timers && after_round(p).mgr.waiters == p.mgr.waiters && after_round(p).state
            == p.state,
        is_emptied(after_check(p)) ==> after_round(p).state is Stopped,
{
    let q = after_check(p);
    lemma_evicted(p, p.mgr.repo);
    if is_emptied(q) && !p.waits[id].open {
        assert forall|i: int| 0 <= i < q.mgr.timers.len() implies timer_known(
            q,
            (#[trigger] q.mgr.timers[i]).2,
        ) by {
            assert(timer_known(p, p.mgr.timers[i].2));
        }
        lemma_last(q, q.mgr.timers, id);
        let told = after_last_timers(q, q.mgr.timers);
        assert(told.mgr.waiters == q.mgr.waiters);
        assert forall|i: int| 0 <= i < q.mgr.waiters.len() implies 0 <= (
        #[trigger] q.mgr.waiters[i]).id() < told.waits.len() by {
            assert(awaited(p.waits, p.mgr.waiters[i]));
        }
        lemma_dismissed(told, q.mgr.waiters, id);
    }
}

/// What the manager has learned when it turns to those who wait.
proof fn lemma_told<T, W>(
    p: PoolView<T, W>,
    now: u128,
    on_time: PoolView<T, W>,
    id: int,
)
    requires
        pool_inv(p),
        pool_inv(on_time),
        on_time == after_expiry(p, now),
    ensures
        ({
            let told = after_inbox(after_news(on_time));
            &&& told.waits == on_time.waits
            &&& in_range(told.mgr.waiters, told.waits.len())
            &&& told.waits.len() == p.waits.len()
            &&& told.mgr.waiters == p.mgr.waiters + incoming(p.registers)
            &&& told.queue == (QueueView {
                events: Seq::<QueueEvent>::empty(),
                ..on_time.queue
            })
            &&& forall|e: TimerEntry<Timer>|
                p.mgr.timers.contains(e) && e.0 >= now ==> #[trigger] told.mgr.timers.contains(e)
            &&& forall|i: int|
                0 <= i < p.registers.len() ==> is_timed(
                    p.acquire_timeout,
                    #[trigger] p.registers[i],
                    told.mgr.timers,
                )
            &&& forall|i: int|
                0 <= i < p.queue.events.len() ==> (
                #[trigger] p.queue.events[i] matches QueueEvent::Verify(at, lock) ==> is_set(
                    told.mgr.timers,
                    at,
                    Timer::Verify(lock),
                ))
        }),
        0 <= id < p.waits.len() && (exists|i: int|
            0 <= i < p.mgr.timers.len() && (#[trigger] p.mgr.timers[i]).0 < now && calls_off(
                p.mgr.timers[i].2,
                id,
            )) ==> on_time.waits[id] == after_cancel(p.waits[id]),
        0 <= id < p.waits.len() && (forall|i: int|
            0 <= i < p.mgr.timers.len() && (#[trigger] p.mgr.timers[i]).0 < now ==> !calls_off(
                p.mgr.timers[i].2,
                id,
            )) ==> on_time.waits[id] == p.waits[id],
        on_time.acquire_timeout == p.acquire_timeout,
        after_inbox(after_news(on_time)).state == p.state,
        on_time.mgr.timers == remaining(p.mgr.timers, now),
{
    let start = with_mgr(p, ManagerView { timers: remaining(p.mgr.timers, now), ..p.mgr });
    let entries = expired(p.mgr.timers, now);
    law_split(p.mgr.timers, now);
    lemma_due(p.mgr.timers, now as int);
    assert forall|i: int| 0 <= i < entries.len() implies timer_known(
        start,
        (#[trigger] entries[i]).2,
    ) by {
        assert(entries[i] == p.mgr.timers[i]);
        assert(timer_known(p, p.mgr.timers[i].2));
    }
    lemma_expired(start, entries, now, id);
    if exists|i: int|
        0 <= i < p.mgr.timers.len() && (#[trigger] p.mgr.timers[i]).0 < now && calls_off(
            p.mgr.timers[i].2,
            id,
        ) {
        let i = choose|i: int|
            0 <= i < p.mgr.timers.len() && (#[trigger] p.mgr.timers[i]).0 < now && calls_off(
                p.mgr.timers[i].2,
                id,
            );
        if i >= entries.len() {
            assert(remaining(p.mgr.timers, now)[i - entries.len()] == p.mgr.timers[i]);
        }
        assert(entries[i] == p.mgr.timers[i]);
        assert(calls_off(entries[i].2, id));
    } else {
        assert forall|i: int| 0 <= i < entries.len() implies !calls_off(
            (#[trigger] entries[i]).2,
            id,
        ) by {
            assert(entries[i].0 < now);
            assert(entries[i] == p.mgr.timers[i]);
        }
    }
    let news = after_news(on_time);
    lemma_events(on_time.mgr, on_time.queue.events);
    lemma_requests(news.mgr, news.acquire_timeout, news.registers);
    let told = after_inbox(news);
    assert forall|i: int| 0 <= i < p.registers.len() implies (
    #[trigger] p.registers[i] matches Register::Waiter(_, to) ==> 0 <= to.id()
        < on_time.waits.len()) by {
        assert(register_known(p, p.registers[i]));
    }
    lemma_in_range(p.registers, on_time.waits.len());
    assert forall|i: int| 0 <= i < told.mgr.waiters.len() implies 0 <= (
    #[trigger] told.mgr.waiters[i]).id() < told.waits.len() by {
        if i < p.mgr.waiters.len() {
            assert(awaited(p.waits, p.mgr.waiters[i]));
        } else {
            let came = incoming(p.registers);
            assert(told.mgr.waiters[i] == came[i - p.mgr.waiters.len()]);
        }
    }
    assert forall|e: TimerEntry<Timer>| p.mgr.timers.contains(e) && e.0 >= now implies #[trigger]
        told.mgr.timers.contains(e) by {
        let i = choose|i: int| 0 <= i < p.mgr.timers.len() && p.mgr.timers[i] == e;
        if i < entries.len() {
            assert(entries[i].0 < now);
        }
        assert(on_time.mgr.timers[i - entries.len()] == e);
        assert(news.mgr.timers.contains(e));
    }
    assert forall|i: int| 0 <= i < p.queue.events.len() implies (
    #[trigger] p.queue.events[i] matches QueueEvent::Verify(at, lock) ==> is_set(
        told.mgr.timers,
        at,
        Timer::Verify(lock),
    )) by {
        assert(on_time.queue.events[i] == p.queue.events[i]);
        if let QueueEvent::Verify(at, lock) = p.queue.events[i] {
            assert(is_set(news.mgr.timers, at, Timer::Verify(lock)));
            let n = choose|n: usize| #[trigger]
                news.mgr.timers.contains((at, n, Timer::Verify(lock)));
            assert(told.mgr.timers.contains((at, n, Timer::Verify(lock))));
        }
    }
}

proof fn lemma_after_waiters<T, W>(p: PoolView<T, W>, now: u128, id: int)
    requires
        in_range(p.mgr.waiters, p.waits.len()),
    ensures
        ({
            let post = after_waiters(p, now);
            &&& post.waits.len() == p.waits.len()
            &&& post.mgr.timers == p.mgr.timers
            &&& post.state == p.state
            &&& post.queue.busy == (p.mgr.waiters.len() > 0)
            &&& 0 <= id < p.waits.len() && !arrives(p.waits[id]) ==> post.waits[id] == p.waits[id]
        }),
{
    let told = with_queue(p, QueueView { busy: p.mgr.waiters.len() > 0, ..p.queue });
    lemma_all_served(told, now);
    lemma_closed(told, now, id);
}

/// Whoever waits longer than may be is told so: a wait whose timer has expired, and for
/// which nothing has come, is called off in the next round, and nothing is sent to it.
/// A timer is that of one who started to wait `acquire_timeout` before it.
pub proof fn law_late_wait_is_called_off<T, W>(
    p: PoolView<T, W>,
    now: u128,
    post: PoolView<T, W>,
    rest: Rest,
    to: WaitResponder,
    at: u128,
)
    requires
        pool_inv(p),
        0 <= to.id() < p.waits.len(),
        wait_inv(p.waits[to.id()]),
        p.waits[to.id()].open,
        is_set(p.mgr.timers, at, Timer::Waiter(to)),
        at < now,
        done(p, now, post, rest),
    ensures
        !post.waits[to.id()].open,
        attempt(post.waits[to.id()].shot, true) == Attempt::<Resolve<T>>::Ready(Err(Canceled)),
{
    let id = to.id();
    let on_time = after_expiry(p, now);
    lemma_told(p, now, on_time, id);
    let number = choose|number: usize| #[trigger]
        p.mgr.timers.contains((at, number, Timer::Waiter(to)));
    let i = choose|i: int|
        0 <= i < p.mgr.timers.len() && p.mgr.timers[i] == (at, number, Timer::Waiter(to));
    assert(calls_off(p.mgr.timers[i].2, id));
    let told = after_inbox(after_news(on_time));
    lemma_after_waiters(told, now, id);
    lemma_round_end(after_waiters(told, now), id);
}

/// Every request of somebody who waits is timed: a timer is set that calls it off
/// `acquire_timeout` after it was made. The same holds of every request to be told
/// whether the pool is empty, of every resource that is to be verified, and of every
/// timer that was set before, past whose time the manager does not rest. The pool is
/// busy if somebody waits.
pub proof fn law_everybody_is_timed<T, W>(
    p: PoolView<T, W>,
    now: u128,
    post: PoolView<T, W>,
    rest: Rest,
    i: int,
)
    requires
        pool_inv(p),
        done(p, now, post, rest),
        rest is Wait,
    ensures
        0 <= i < p.registers.len() ==> match p.registers[i] {
            Register::Waiter(start, to) => p.acquire_timeout is Some ==> is_set(
                post.mgr.timers,
                (start + p.acquire_timeout->0) as u128,
                Timer::Waiter(to),
            ),
            Register::Shutdown(at, to) => is_set(post.mgr.timers, at, Timer::Shutdown(to)),
        },
        0 <= i < p.queue.events.len() ==> (p.queue.events[i] matches QueueEvent::Verify(at, lock)
            ==> is_set(post.mgr.timers, at, Timer::Verify(lock))),
        0 <= i < p.mgr.timers.len() && p.mgr.timers[i].0 >= now ==> post.mgr.timers.contains(
            p.mgr.timers[i],
        ) && (rest matches Rest::Wait(Some(at)) && at <= p.mgr.timers[i].0),
        rest matches Rest::Wait(Some(at)) ==> exists|j: int|
            0 <= j < p.mgr.timers.len() && (#[trigger] p.mgr.timers[j]).0 == at,
        post.mgr.waiters.len() > 0 ==> post.queue.busy,
{
    let on_time = after_expiry(p, now);
    lemma_told(p, now, on_time, 0);
    let told = after_inbox(after_news(on_time));
    lemma_after_waiters(told, now, 0);
    let after = after_waiters(told, now);
    let busy = with_queue(
        told,
        QueueView { busy: told.mgr.waiters.len() > 0, ..told.queue },
    );
    lemma_all_served(busy, now);
    lemma_evicted(after, after.mgr.repo);
    assert(!is_emptied(after_check(after)));
    assert(post.mgr.timers == told.mgr.timers);
    let left = remaining(p.mgr.timers, now);
    law_split(p.mgr.timers, now);
    lemma_due(p.mgr.timers, now as int);
    let gone = expired(p.mgr.timers, now).len() as int;
    if left.len() > 0 {
        assert(left[0] == p.mgr.timers[gone]);
    }
    if 0 <= i < p.registers.len() {
        assert(is_timed(p.acquire_timeout, p.registers[i], told.mgr.timers));
    }
    if 0 <= i < p.mgr.timers.len() && p.mgr.timers[i].0 >= now {
        assert(p.mgr.timers.contains(p.mgr.timers[i]));
        if i < gone {
            assert(expired(p.mgr.timers, now)[i].0 < now);
        }
        assert(left[i - gone] == p.mgr.timers[i]);
        law_first_is_earliest(left);
    }
    lemma_evicted(after, after.mgr.repo);
}

/// In a round in which no timer expires, the resources that were returned go to those
/// who wait: the one that was returned first to the one who came first, and so on, to
/// as many as there are resources, each as it was returned. Everybody else stays in
/// line.
pub proof fn law_each_in_line_gets_one<T, W>(
    p: PoolView<T, W>,
    now: u128,
    post: PoolView<T, W>,
    rest: Rest,
    i: int,
)
    requires
        pool_inv(p),
        forall|j: int| 0 <= j < p.mgr.timers.len() ==> (#[trigger] p.mgr.timers[j]).0 >= now,
        each_its_own(p.mgr.waiters + incoming(p.registers), p.waits),
        done(p, now, post, rest),
    ensures
        ({
            let line = reachable(p.mgr.waiters + incoming(p.registers), p.waits);
            let goods = offered(p.queue.idle, p.queue.cells);
            &&& 0 <= i < line.len() && i < goods.len() ==> got(
                post,
                line[i],
                dealt(goods[i], now),
            )
            &&& goods.len() <= i < line.len() && rest is Wait ==> post.waits[line[i].id()]
                == p.waits[line[i].id()]
            &&& rest is Wait ==> reachable(post.mgr.waiters, post.waits) == (if goods.len()
                < line.len() {
                line.skip(goods.len() as int)
            } else {
                Seq::empty()
            })
        }),
{
    let on_time = after_expiry(p, now);
    let entries = expired(p.mgr.timers, now);
    law_split(p.mgr.timers, now);
    if entries.len() > 0 {
        assert(entries[0].0 < now);
        assert(entries[0] == p.mgr.timers[0]);
    }
    assert(remaining(p.mgr.timers, now) =~= p.mgr.timers);
    assert(on_time == p);
    lemma_told(p, now, on_time, 0);
    let told = after_inbox(after_news(p));
    let busy = with_queue(
        told,
        QueueView { busy: told.mgr.waiters.len() > 0, ..told.queue },
    );
    let after = after_waiters(told, now);
    let line = reachable(told.mgr.waiters, p.waits);
    let goods = offered(p.queue.idle, p.queue.cells);
    lemma_after_waiters(told, now, 0);
    lemma_members(told.mgr.waiters, told.waits);
    lemma_shared_out(busy, now, i);
    let gate = told.mgr.waiters.len() > 0 && (told.queue.idle.len() > 0 || can_create(
        told.queue,
    ));
    if !gate {
        assert(line.len() == 0 || goods.len() == 0);
        assert(line.skip(0) =~= line);
    }
    lemma_evicted(after, after.mgr.repo);
    if after.waits.len() > 0 {
        lemma_round_end(after, 0);
    }
    if 0 <= i < line.len() {
        assert(told.mgr.waiters.contains(line[i]));
        let j = choose|j: int| 0 <= j < told.mgr.waiters.len() && told.mgr.waiters[j] == line[i];
        assert(0 <= told.mgr.waiters[j].id() < told.waits.len());
        if i < goods.len() {
            assert(gate);
            lemma_round_end(after, line[i].id());
        }
    }
}

/// Nobody is called off early: whoever still waits, and whose time is not over, is in a
/// round either sent a resource or left waiting, unless the pool is emptied for good.
pub proof fn law_nobody_is_called_off_early<T, W>(
    p: PoolView<T, W>,
    now: u128,
    post: PoolView<T, W>,
    rest: Rest,
    id: int,
)
    requires
        pool_inv(p),
        0 <= id < p.waits.len(),
        wait_inv(p.waits[id]),
        arrives(p.waits[id]),
        forall|i: int|
            0 <= i < p.mgr.timers.len() ==> ((#[trigger] p.mgr.timers[i]).0 >= now || !(
            p.mgr.timers[i].2 matches Timer::Waiter(to) && to.id() == id)),
        done(p, now, post, rest),
        rest is Wait,
    ensures
        post.waits[id] == p.waits[id] || (attempt(post.waits[id].shot, true) matches Attempt::Ready(
            Ok(ResourceResolve::Resource(Some(guard))),
        ) && guard@.value is Some),
{
    let on_time = after_expiry(p, now);
    assert forall|i: int|
        0 <= i < p.mgr.timers.len() && (#[trigger] p.mgr.timers[i]).0 < now implies !calls_off(
        p.mgr.timers[i].2,
        id,
    ) by {
    }
    lemma_told(p, now, on_time, id);
    let told = after_inbox(after_news(on_time));
    lemma_after_waiters(told, now, id);
    lemma_sent_or_left(
        with_queue(told, QueueView { busy: told.mgr.waiters.len() > 0, ..told.queue }),
        now,
        id,
    );
    lemma_round_end(after_waiters(told, now), id);
}

proof fn lemma_sent_or_left<T, W>(p: PoolView<T, W>, now: u128, id: int)
    requires
        in_range(p.mgr.waiters, p.waits.len()),
        0 <= id < p.waits.len(),
        wait_inv(p.waits[id]),
        arrives(p.waits[id]),
    ensures
        ({
            let post = served(p, now);
            post.waits[id] == p.waits[id] || (attempt(post.waits[id].shot, true)
                matches Attempt::Ready(Ok(ResourceResolve::Resource(Some(guard))))
                && guard@.value is Some)
        }),
    decreases p.mgr.waiters.len(),
{
    if p.mgr.waiters.len() > 0 {
        let to = p.mgr.waiters[0];
        let tail = p.mgr.waiters.drop_first();
        assert forall|i: int| 0 <= i < tail.len() implies 0 <= (#[trigger] tail[i]).id()
            < p.waits.len() by {
            assert(tail[i] == p.mgr.waiters[i + 1]);
        }
        lemma_live_idle(p.queue.idle, p.queue.cells);
        if !arrives(p.waits[to.id()]) {
            lemma_sent_or_left(after_waiter(p), now, id);
        } else if next_idle(p.queue, now) is Some {
            let guard = next_idle(p.queue, now)->0;
            let taken = with_queue(p, after_acquire(p.queue));
            let q = after_waiter(after_serve(taken, to, guard));
            assert(served(p, now) == served(q, now));
            if to.id() == id {
                assert(q.waits[id] == after_reply(
                    p.waits[id],
                    ResourceResolve::Resource(Some(ResourceGuard::of(guard))),
                ));
                lemma_closed(q, now, id);
            } else {
                lemma_sent_or_left(q, now, id);
            }
        }
    }
}

/// The pool when the manager turns to those who wait.
pub proof fn lemma_told_range<T, W>(
    p: PoolView<T, W>,
    now: u128,
    on_time: PoolView<T, W>,
) -> (told: PoolView<T, W>)
    requires
        pool_inv(p),
        pool_inv(on_time),
        on_time == after_expiry(p, now),
    ensures
        told == after_inbox(after_news(on_time)),
        in_range(told.mgr.waiters, told.waits.len()),
        told.waits.len() == p.waits.len(),
        told.mgr.waiters == p.mgr.waiters + incoming(p.registers),
{
    lemma_told(p, now, on_time, 0);
    after_inbox(after_news(on_time))
}

proof fn lemma_conserved<T, W>(p: PoolView<T, W>, now: u128, lock: ResourceLock)
    requires
        in_range(p.mgr.waiters, p.waits.len()),
        forall|i: int|
            0 <= i < p.mgr.waiters.len() ==> wait_inv(
                p.waits[(#[trigger] p.mgr.waiters[i]).id()],
            ),
        forall|i: int|
            0 <= i < p.queue.idle.len() ==> known(p.queue.cells, #[trigger] p.queue.idle[i]),
        at_hand(p.queue.idle, p.queue.cells, lock),
    ensures
        ({
            let post = served(p, now);
            at_hand(post.queue.idle, post.queue.cells, lock) || exists|id: int| #[trigger]
                was_sent(post.waits, id, lock)
        }),
    decreases p.mgr.waiters.len(),
{
    if p.mgr.waiters.len() > 0 {
        let to = p.mgr.waiters[0];
        let tail = p.mgr.waiters.drop_first();
        assert forall|i: int| 0 <= i < tail.len() implies 0 <= (#[trigger] tail[i]).id()
            < p.waits.len() && wait_inv(p.waits[tail[i].id()]) by {
            assert(tail[i] == p.mgr.waiters[i + 1]);
        }
        let live = live_idle(p.queue.idle, p.queue.cells);
        lemma_live_idle(p.queue.idle, p.queue.cells);
        assert forall|i: int| 0 <= i < live.len() implies known(p.queue.cells, #[trigger] live[i]) by {
            assert(live[i] == p.queue.idle[i + p.queue.idle.len() - live.len()]);
        }
        lemma_live_keeps(p.queue.idle, p.queue.cells, lock);
        let j = choose|j: int| 0 <= j < live.len() && live[j] == lock;
        if !arrives(p.waits[to.id()]) {
            lemma_conserved(after_waiter(p), now, lock);
        } else {
            let guard = next_idle(p.queue, now)->0;
            let q = after_waiter(after_serve(with_queue(p, after_acquire(p.queue)), to, guard));
            assert(served(p, now) == served(q, now));
            if live[0] == lock {
                lemma_closed(q, now, to.id());
                assert(was_sent(served(q, now).waits, to.id(), lock));
            } else {
                assert(live.drop_first()[j - 1] == lock);
                assert forall|i: int| 0 <= i < q.queue.idle.len() implies known(
                    q.queue.cells,
                    #[trigger] q.queue.idle[i],
                ) by {
                    assert(q.queue.idle[i] == live[i + 1]);
                }
                assert forall|i: int| 0 <= i < q.mgr.waiters.len() implies wait_inv(
                    q.waits[(#[trigger] q.mgr.waiters[i]).id()],
                ) by {
                    let id = q.mgr.waiters[i].id();
                    if id == to.id() {
                        assert(wait_inv(p.waits[id]));
                    }
                }
                lemma_conserved(q, now, lock);
            }
        }
    }
}

/// No resource is lost when those who wait are served: one that was at hand still is, or
/// is on its way to somebody who waits.
pub proof fn law_no_resource_is_lost<T, W>(p: PoolView<T, W>, now: u128, lock: ResourceLock)
    requires
        pool_inv(p),
        forall|i: int|
            0 <= i < p.mgr.waiters.len() ==> wait_inv(
                p.waits[(#[trigger] p.mgr.waiters[i]).id()],
            ),
        at_hand(p.queue.idle, p.queue.cells, lock),
    ensures
        ({
            let post = after_waiters(p, now);
            at_hand(post.queue.idle, post.queue.cells, lock) || exists|id: int| #[trigger]
                was_sent(post.waits, id, lock)
        }),
{
    assert forall|i: int| 0 <= i < p.mgr.waiters.len() implies 0 <= (
    #[trigger] p.mgr.waiters[i]).id() < p.waits.len() by {
        assert(awaited(p.waits, p.mgr.waiters[i]));
    }
    let told = with_queue(p, QueueView { busy: p.mgr.waiters.len() > 0, ..p.queue });
    lemma_conserved(told, now, lock);
}

} // verus!
