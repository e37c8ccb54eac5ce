//! What a round of the manager does for those who wait.

use vstd::prelude::*;

use crate::arp::acquire::progress;
use crate::arp::model::{
    after_check, after_dismiss, after_events, after_evictions, after_inbox, after_last_timers,
    after_news, after_requests, after_round, after_serve, after_waiter, after_waiters, can_create,
    expiry, is_emptied, next_check, pool_inv, register_known, rest_after, round, served,
    timer_expires, timer_known, timers_expire, with_mgr, with_shared, ManagerView, PoolView,
    Register, Timer,
};
use crate::arp::shared::{after_acquire, next_idle, SharedView};
use crate::dropshot::{attempt, Attempt, Canceled};
use crate::pool::acquire::AcquireView;
use crate::pool::model::{lemma_live_idle, Access, Resolve, Rest};
use crate::pool::requests::once_more;
use crate::pool::rounds::{
    at_hand, each_its_own, in_range, lemma_live_keeps, lemma_members, lemma_same_line, lemma_tail,
    offered, was_sent,
};
use crate::pool::turns::reachable;
use crate::resource::info::ResourceInfo;
use crate::resource::lock::{known, ready, Cell, GuardView, ResourceGuard, ResourceLock};
use crate::resource::operation::ResourceResolve;
use crate::shared::{live_idle, SharedEvent};
use crate::timers::{
    after_insert, due_before, expired, law_first_is_earliest, law_split, remaining, TimerEntry,
};
use crate::wait::{after_cancel, after_reply, arrives, awaited, wait_inv, WaitResponder};

verus! {

broadcast use {
    ResourceLock::lemma_at,
    ResourceLock::lemma_same,
    ResourceGuard::lemma_of,
    ResourceGuard::lemma_view,
};

/// Those who have asked the manager for a resource, in the order in which they asked.
pub open spec fn incoming(registers: Seq<Register>) -> Seq<WaitResponder>
    decreases registers.len(),
{
    if registers.len() == 0 {
        Seq::empty()
    } else {
        let before = incoming(registers.drop_last());
        match registers.last() {
            Register::Waiter(_, to) => before.push(to),
            Register::Shutdown(_, _) => before,
        }
    }
}

/// Check that somebody was sent a resource.
pub open spec fn got<T, W>(p: PoolView<T, W>, to: WaitResponder, guard: Access<T>) -> bool {
    attempt(p.waits[to.id()].shot, true) == Attempt::<Resolve<T>>::Ready(
        Ok(ResourceResolve::Resource(Some(ResourceGuard::of(guard)))),
    )
}

/// A resource as it is handed out at a time.
pub open spec fn dealt<T>(guard: Access<T>, now: u128) -> Access<T> {
    GuardView { info: once_more(guard.info, now), ..guard }
}

proof fn lemma_offered<T>(s: SharedView<T>, now: u128)
    ensures
        next_idle(s, now) is None ==> offered(s.idle, s.cells).len() == 0,
        next_idle(s, now) is Some ==> offered(s.idle, s.cells).len() > 0 && next_idle(s, now)
            == Some(dealt(offered(s.idle, s.cells)[0], now)) && offered(
            after_acquire(s).idle,
            after_acquire(s).cells,
        ) == offered(s.idle, s.cells).drop_first(),
    decreases s.idle.len(),
{
    if s.idle.len() > 0 {
        if !ready(s.cells, s.idle[0]) {
            lemma_offered(SharedView { idle: s.idle.drop_first(), ..s }, now);
        } else {
            assert(offered(after_acquire(s).idle, after_acquire(s).cells) =~= offered(
                s.idle,
                s.cells,
            ).drop_first());
        }
    }
}

/// What serving those who wait does to replies.
pub proof fn lemma_closed<T, W>(p: PoolView<T, W>, now: u128, id: int)
    requires
        in_range(p.mgr.waiters, p.waits.len()),
    ensures
        served(p, now).waits.len() == p.waits.len(),
        0 <= id < p.waits.len() && !arrives(p.waits[id]) ==> served(p, now).waits[id]
            == p.waits[id],
    decreases p.mgr.waiters.len(),
{
    if p.mgr.waiters.len() > 0 {
        let to = p.mgr.waiters[0];
        let tail = p.mgr.waiters.drop_first();
        assert forall|i: int| 0 <= i < tail.len() implies 0 <= (#[trigger] tail[i]).id()
            < p.waits.len() by {
            assert(tail[i] == p.mgr.waiters[i + 1]);
        }
        if !arrives(p.waits[to.id()]) {
            lemma_closed(after_waiter(p), now, id);
        } else if next_idle(p.shared, now) is Some {
            let q = with_shared(p, after_acquire(p.shared));
            lemma_closed(after_waiter(after_serve(q, to, next_idle(p.shared, now)->0)), now, id);
        }
    }
}

/// What serving those who wait leaves alone.
pub proof fn lemma_all_served<T, W>(p: PoolView<T, W>, now: u128)
    ensures
        ({
            let post = served(p, now);
            &&& post.mgr.waiters.len() == 0 || post.shared.idle.len() == 0
            &&& post.mgr == (ManagerView { waiters: post.mgr.waiters, ..p.mgr })
            &&& post.state == p.state
            &&& post.shutdowns == p.shutdowns
            &&& post.handles == p.handles
            &&& post.shared.count == p.shared.count
            &&& post.shared.busy == p.shared.busy
        }),
    decreases p.mgr.waiters.len(),
{
    if p.mgr.waiters.len() > 0 {
        let to = p.mgr.waiters[0];
        if !arrives(p.waits[to.id()]) {
            lemma_all_served(after_waiter(p), now);
        } else if next_idle(p.shared, now) is Some {
            let q = with_shared(p, after_acquire(p.shared));
            lemma_all_served(after_waiter(after_serve(q, to, next_idle(p.shared, now)->0)), now);
        }
    }
}

proof fn lemma_shared_out<T, W>(p: PoolView<T, W>, now: u128, i: int)
    requires
        each_its_own(p.mgr.waiters, p.waits),
    ensures
        ({
            let line = reachable(p.mgr.waiters, p.waits);
            let goods = offered(p.shared.idle, p.shared.cells);
            let post = served(p, now);
            &&& 0 <= i < line.len() && i < goods.len() ==> got(post, line[i], dealt(goods[i], now))
                && !post.waits[line[i].id()].open
            &&& goods.len() <= i < line.len() ==> post.waits[line[i].id()]
                == p.waits[line[i].id()]
            &&& reachable(post.mgr.waiters, post.waits) == (if goods.len() < line.len() {
                line.skip(goods.len() as int)
            } else {
                Seq::empty()
            })
        }),
    decreases p.mgr.waiters.len(),
{
    let line = reachable(p.mgr.waiters, p.waits);
    let goods = offered(p.shared.idle, p.shared.cells);
    lemma_offered(p.shared, now);
    if p.mgr.waiters.len() > 0 {
        let to = p.mgr.waiters[0];
        lemma_tail(p.mgr.waiters, p.waits);
        if !arrives(p.waits[to.id()]) {
            lemma_shared_out(after_waiter(p), now, i);
        } else if next_idle(p.shared, now) is Some {
            let guard = next_idle(p.shared, now)->0;
            let taken = with_shared(p, after_acquire(p.shared));
            let q = after_waiter(after_serve(taken, to, guard));
            lemma_same_line(q.mgr.waiters, p.waits, q.waits);
            let rest = reachable(q.mgr.waiters, q.waits);
            assert(line.drop_first() =~= rest);
            assert(q.waits[to.id()] == after_reply(
                p.waits[to.id()],
                ResourceResolve::Resource(Some(ResourceGuard::of(guard))),
            ));
            assert(got(q, to, guard));
            lemma_shared_out(q, now, i - 1);
            assert forall|j: int| 0 <= j < q.mgr.waiters.len() implies 0 <= (
            #[trigger] q.mgr.waiters[j]).id() < q.waits.len() by {}
            lemma_closed(q, now, to.id());
            assert(served(p, now) == served(q, now));
            if 0 < i < line.len() {
                lemma_members(q.mgr.waiters, q.waits);
                assert(line[i] == rest[i - 1]);
                assert(q.mgr.waiters.contains(rest[i - 1]));
                let j = choose|j: int| 0 <= j < q.mgr.waiters.len() && q.mgr.waiters[j]
                    == rest[i - 1];
                assert(q.waits[q.mgr.waiters[j].id()] == p.waits[q.mgr.waiters[j].id()]);
            }
            if goods.len() < line.len() {
                assert(rest.skip(goods.len() - 1) =~= line.skip(goods.len() as int));
            }
        } else {
            assert(line.skip(0) =~= line);
        }
    }
}

/// What disposing of all resources that are not in use leaves alone.
pub proof fn lemma_evicted<T>(s: SharedView<T>, locks: Seq<ResourceLock>)
    requires
        forall|i: int| 0 <= i < locks.len() ==> known(s.cells, #[trigger] locks[i]),
    ensures
        after_evictions(s, locks).idle == s.idle,
        after_evictions(s, locks).cells.len() == s.cells.len(),
        forall|lock: ResourceLock| #[trigger]
            ready(after_evictions(s, locks).cells, lock) && known(s.cells, lock) ==> ready(
                s.cells,
                lock,
            ),
    decreases locks.len(),
{
    if locks.len() > 0 {
        let rest = locks.drop_last();
        assert forall|i: int| 0 <= i < rest.len() implies known(s.cells, #[trigger] rest[i]) by {
            assert(rest[i] == locks[i]);
        }
        lemma_evicted(s, rest);
        assert(known(s.cells, locks[locks.len() - 1]));
        let mid = after_evictions(s, rest);
        let post = after_evictions(s, locks);
        assert forall|lock: ResourceLock| #[trigger]
            ready(post.cells, lock) && known(s.cells, lock) implies ready(s.cells, lock) by {
            if lock.id() != locks.last().id() || mid.cells[lock.id()] is Held {
                assert(ready(mid.cells, lock));
            }
        }
    }
}

/// The state after the timers in a round.
pub proof fn lemma_parts<T, W, R: Fn(T, ResourceInfo) -> (T, bool)>(
    p: PoolView<T, W>,
    hook: Option<R>,
    now: u128,
    post: PoolView<T, W>,
    rest: Rest,
) -> (on_time: PoolView<T, W>)
    requires
        round(p, hook, now, post, rest),
    ensures
        expiry(p, hook, now, on_time),
        pool_inv(on_time),
        pool_inv(after_waiters(after_inbox(after_news(on_time)), now)),
        post == after_round(after_waiters(after_inbox(after_news(on_time)), now)),
        rest == rest_after(
            after_waiters(after_inbox(after_news(on_time)), now),
            next_check(on_time.mgr.timers),
        ),
{
    choose|on_time: PoolView<T, W>| #[trigger]
        expiry(p, hook, now, on_time) && pool_inv(on_time) && {
            let after = after_waiters(after_inbox(after_news(on_time)), now);
            &&& pool_inv(after)
            &&& post == after_round(after)
            &&& rest == rest_after(after, next_check(on_time.mgr.timers))
        }
}

/// After a round of the manager, nobody waits while a resource that was returned can
/// be handed out.
pub proof fn law_nobody_waits_in_vain<T, W, R: Fn(T, ResourceInfo) -> (T, bool)>(
    p: PoolView<T, W>,
    hook: Option<R>,
    now: u128,
    post: PoolView<T, W>,
    rest: Rest,
    i: int,
)
    requires
        round(p, hook, now, post, rest),
        post.mgr.waiters.len() > 0,
        0 <= i < post.shared.idle.len(),
    ensures
        !(post.shared.cells[post.shared.idle[i].id()] matches Cell::Free(_, Some(_))),
{
    let on_time = lemma_parts(p, hook, now, post, rest);
    let told = after_inbox(after_news(on_time));
    let busy = with_shared(
        told,
        SharedView { busy: told.mgr.waiters.len() > 0, ..told.shared },
    );
    lemma_all_served(busy, now);
    let after = after_waiters(told, now);
    assert(after.mgr.waiters.len() == 0 || after.shared.idle.len() == 0);
    lemma_evicted(after.shared, after.mgr.repo);
    assert(!is_emptied(after_check(after)));
}

/// What is set after one more timer was.
pub proof fn lemma_inserted(entries: Seq<TimerEntry<Timer>>, entry: TimerEntry<Timer>)
    ensures
        after_insert(entries, entry).contains(entry),
        forall|e: TimerEntry<Timer>|
            entries.contains(e) ==> #[trigger] after_insert(entries, entry).contains(e),
        forall|e: TimerEntry<Timer>| #[trigger]
            after_insert(entries, entry).contains(e) ==> e == entry || entries.contains(e),
{
    lemma_due(entries, entry.0 + 1);
    let at = due_before(entries, entry.0 + 1) as int;
    let more = after_insert(entries, entry);
    assert(more[at] == entry);
    assert forall|e: TimerEntry<Timer>| entries.contains(e) implies #[trigger] more.contains(e) by {
        let i = choose|i: int| 0 <= i < entries.len() && entries[i] == e;
        if i < at {
            assert(more[i] == e);
        } else {
            assert(more[i + 1] == e);
        }
    }
    assert forall|e: TimerEntry<Timer>| #[trigger] more.contains(e) implies e == entry
        || entries.contains(e) by {
        let i = choose|i: int| 0 <= i < more.len() && more[i] == e;
        if i < at {
            assert(entries[i] == e);
        } else if i > at {
            assert(entries[i - 1] == e);
        }
    }
}

/// No more timers are due than there are.
pub proof fn lemma_due(entries: Seq<TimerEntry<Timer>>, at: int)
    ensures
        due_before(entries, at) <= entries.len(),
    decreases entries.len(),
{
    if entries.len() > 0 && entries.last().0 >= at {
        lemma_due(entries.drop_last(), at);
    }
}

/// Check that a timer is set.
pub open spec fn is_set(timers: Seq<TimerEntry<Timer>>, at: u128, timer: Timer) -> bool {
    exists|number: usize| #[trigger] timers.contains((at, number, timer))
}

proof fn lemma_events(m: ManagerView, events: Seq<SharedEvent>)
    ensures
        ({
            let after = after_events(m, events);
            &&& after.waiters == m.waiters
            &&& forall|e: TimerEntry<Timer>|
                m.timers.contains(e) ==> #[trigger] after.timers.contains(e)
            &&& forall|i: int|
                0 <= i < events.len() ==> (#[trigger] events[i] matches SharedEvent::Verify(at, lock)
                    ==> is_set(after.timers, at, Timer::Verify(lock)))
        }),
    decreases events.len(),
{
    let after = after_events(m, events);
    if events.len() > 0 {
        let rest = events.drop_last();
        lemma_events(m, rest);
        let mid = after_events(m, rest);
        if let SharedEvent::Verify(at, lock) = events.last() {
            let entry = (at, (mid.timer_id + 1) as usize, Timer::Verify(lock));
            lemma_inserted(mid.timers, entry);
            assert(after.timers.contains(entry));
        }
        assert forall|i: int| 0 <= i < events.len() implies (
        #[trigger] events[i] matches SharedEvent::Verify(at, lock) ==> is_set(
            after.timers,
            at,
            Timer::Verify(lock),
        )) by {
            if events[i] is Verify && i < rest.len() {
                assert(rest[i] == events[i]);
                let at = rest[i]->Verify_0;
                let timer = Timer::Verify(rest[i]->Verify_1);
                let number = choose|number: usize| #[trigger]
                    mid.timers.contains((at, number, timer));
                assert(after.timers.contains((at, number, timer)));
            }
        }
    }
}

/// Check that the manager has set the timer that a request calls for.
pub open spec fn is_timed(
    timeout: Option<u128>,
    register: Register,
    timers: Seq<TimerEntry<Timer>>,
) -> bool {
    match register {
        Register::Shutdown(at, to) => is_set(timers, at, Timer::Shutdown(to)),
        Register::Waiter(start, to) => timeout is Some ==> is_set(
            timers,
            (start + timeout->0) as u128,
            Timer::Waiter(to),
        ),
    }
}

proof fn lemma_requests(m: ManagerView, timeout: Option<u128>, registers: Seq<Register>)
    ensures
        ({
            let q = after_requests(m, timeout, registers);
            &&& q.waiters == m.waiters + incoming(registers)
            &&& q.repo == m.repo
            &&& forall|e: TimerEntry<Timer>|
                m.timers.contains(e) ==> #[trigger] q.timers.contains(e)
            &&& forall|i: int|
                0 <= i < registers.len() ==> is_timed(timeout, #[trigger] registers[i], q.timers)
        }),
    decreases registers.len(),
{
    let q = after_requests(m, timeout, registers);
    assert(registers.len() == 0 ==> q.waiters =~= m.waiters + incoming(registers));
    if registers.len() > 0 {
        let rest = registers.drop_last();
        lemma_requests(m, timeout, rest);
        let mid = after_requests(m, timeout, rest);
        let last = registers[registers.len() - 1];
        assert(last == registers.last());
        let number = (mid.timer_id + 1) as usize;
        let entry = match last {
            Register::Shutdown(at, to) => (at, number, Timer::Shutdown(to)),
            Register::Waiter(start, to) => (
                (start + timeout->0) as u128,
                number,
                Timer::Waiter(to),
            ),
        };
        lemma_inserted(mid.timers, entry);
        assert forall|i: int| 0 <= i < registers.len() implies is_timed(
            timeout,
            #[trigger] registers[i],
            q.timers,
        ) by {
            if i < rest.len() {
                assert(rest[i] == registers[i]);
                assert(is_timed(timeout, rest[i], mid.timers));
                assert forall|at: u128, timer: Timer| #[trigger]
                    is_set(mid.timers, at, timer) implies is_set(q.timers, at, timer) by {
                    let n = choose|n: usize| #[trigger] mid.timers.contains((at, n, timer));
                    assert(q.timers.contains((at, n, timer)));
                }
                match registers[i] {
                    Register::Shutdown(at, to) => {
                        assert(is_set(mid.timers, at, Timer::Shutdown(to)));
                    },
                    Register::Waiter(start, to) => {
                        if timeout is Some {
                            assert(is_set(
                                mid.timers,
                                (start + timeout->0) as u128,
                                Timer::Waiter(to),
                            ));
                        }
                    },
                }
            } else if last is Shutdown || timeout is Some {
                assert(q.timers.contains((entry.0, entry.1, entry.2)));
            }
        }
        assert(q.waiters =~= m.waiters + incoming(registers));
    }
}

/// Check that a timer calls a wait off.
pub open spec fn calls_off(timer: Timer, id: int) -> bool {
    timer matches Timer::Waiter(to) && to.id() == id
}

proof fn lemma_expired<T, W, R: Fn(T, ResourceInfo) -> (T, bool)>(
    p: PoolView<T, W>,
    hook: Option<R>,
    entries: Seq<TimerEntry<Timer>>,
    now: u128,
    post: PoolView<T, W>,
    id: int,
)
    requires
        timers_expire(p, hook, entries, now, post),
        forall|i: int| 0 <= i < entries.len() ==> timer_known(p, (#[trigger] entries[i]).2),
    ensures
        post.waits.len() == p.waits.len(),
        post.shutdowns.len() == p.shutdowns.len(),
        post.shared.cells.len() >= p.shared.cells.len(),
        post.mgr.waiters == p.mgr.waiters,
        post.mgr.timers == p.mgr.timers,
        post.registers == p.registers,
        post.acquire_timeout == p.acquire_timeout,
        post.handles == p.handles,
        p.shared.events.is_prefix_of(post.shared.events),
        0 <= id < p.waits.len() && (exists|i: int|
            0 <= i < entries.len() && calls_off((#[trigger] entries[i]).2, id)) ==> post.waits[id] == after_cancel(p.waits[id]),
        0 <= id < p.waits.len() && (forall|i: int|
            0 <= i < entries.len() ==> !calls_off((#[trigger] entries[i]).2, id)) ==> post.waits[id] == p.waits[id],
        post.state == p.state,
    decreases entries.len(),
{
    if entries.len() > 0 {
        let rest = entries.drop_last();
        let entry = entries.last();
        let mid = choose|mid: PoolView<T, W>|
            timers_expire(p, hook, rest, now, mid) && #[trigger] timer_expires(
                mid,
                hook,
                entry,
                now,
                post,
            );
        assert forall|i: int| 0 <= i < rest.len() implies timer_known(
            p,
            (#[trigger] rest[i]).2,
        ) by {
            assert(rest[i] == entries[i]);
        }
        lemma_expired(p, hook, rest, now, mid, id);
        assert(timer_known(p, entries[entries.len() - 1].2));
        if exists|i: int| 0 <= i < entries.len() && calls_off((#[trigger] entries[i]).2, id) {
            let i = choose|i: int| 0 <= i < entries.len() && calls_off((#[trigger] entries[i]).2, id);
            if i < rest.len() {
                assert(rest[i] == entries[i]);
                assert(calls_off(rest[i].2, id));
                assert(mid.waits[id] == after_cancel(p.waits[id]));
            } else if exists|j: int| 0 <= j < rest.len() && calls_off((#[trigger] rest[j]).2, id) {
                assert(mid.waits[id] == after_cancel(p.waits[id]));
            } else {
                assert(mid.waits[id] == p.waits[id]);
            }
        } else {
            assert forall|j: int| 0 <= j < rest.len() implies !calls_off(
                (#[trigger] rest[j]).2,
                id,
            ) by {
                assert(rest[j] == entries[j]);
            }
            assert(!calls_off(entries[entries.len() - 1].2, id));
        }
    }
}

proof fn lemma_last<T, W>(p: PoolView<T, W>, timers: Seq<TimerEntry<Timer>>, id: int)
    requires
        0 <= id < p.waits.len(),
        !p.waits[id].open,
        forall|i: int| 0 <= i < timers.len() ==> timer_known(p, (#[trigger] timers[i]).2),
    ensures
        after_last_timers(p, timers).waits[id] == p.waits[id],
        after_last_timers(p, timers).waits.len() == p.waits.len(),
        after_last_timers(p, timers).mgr == p.mgr,
    decreases timers.len(),
{
    if timers.len() > 0 {
        let rest = timers.drop_last();
        assert forall|i: int| 0 <= i < rest.len() implies timer_known(
            p,
            (#[trigger] rest[i]).2,
        ) by {
            assert(rest[i] == timers[i]);
        }
        lemma_last(p, rest, id);
        assert(timer_known(p, timers[timers.len() - 1].2));
    }
}

proof fn lemma_dismissed<T, W>(p: PoolView<T, W>, waiters: Seq<WaitResponder>, id: int)
    requires
        0 <= id < p.waits.len(),
        !p.waits[id].open,
        forall|i: int|
            0 <= i < waiters.len() ==> 0 <= (#[trigger] waiters[i]).id() < p.waits.len(),
    ensures
        after_dismiss(p, waiters).waits[id] == p.waits[id],
        after_dismiss(p, waiters).waits.len() == p.waits.len(),
    decreases waiters.len(),
{
    if waiters.len() > 0 {
        let rest = waiters.drop_last();
        assert forall|i: int| 0 <= i < rest.len() implies 0 <= (#[trigger] rest[i]).id()
            < p.waits.len() by {
            assert(rest[i] == waiters[i]);
        }
        lemma_dismissed(p, rest, id);
        assert(0 <= waiters[waiters.len() - 1].id() < p.waits.len());
    }
}

/// A wait that is decided stays as it is to the end of a round.
proof fn lemma_round_end<T, W>(p: PoolView<T, W>, id: int)
    requires
        pool_inv(p),
        0 <= id < p.waits.len(),
    ensures
        !p.waits[id].open ==> after_round(p).waits[id] == p.waits[id],
        !is_emptied(after_check(p)) ==> after_round(p).waits == p.waits && after_round(p).mgr.timers
            == p.mgr.timers && after_round(p).mgr.waiters == p.mgr.waiters && after_round(p).state
            == p.state,
        is_emptied(after_check(p)) ==> after_round(p).state is Stopped,
{
    let q = after_check(p);
    if is_emptied(q) && !p.waits[id].open {
        lemma_evicted(p.shared, p.mgr.repo);
        assert forall|i: int| 0 <= i < q.mgr.timers.len() implies timer_known(
            q,
            (#[trigger] q.mgr.timers[i]).2,
        ) by {
            assert(timer_known(p, p.mgr.timers[i].2));
        }
        lemma_last(q, q.mgr.timers, id);
        let told = after_last_timers(q, q.mgr.timers);
        assert(told.mgr.waiters == q.mgr.waiters);
        assert forall|i: int| 0 <= i < q.mgr.waiters.len() implies 0 <= (
        #[trigger] q.mgr.waiters[i]).id() < told.waits.len() by {
            assert(awaited(p.waits, p.mgr.waiters[i]));
        }
        lemma_dismissed(told, q.mgr.waiters, id);
    }
}

/// Those who ask have a place for a reply.
pub proof fn lemma_in_range(registers: Seq<Register>, len: nat)
    requires
        forall|i: int|
            0 <= i < registers.len() ==> (#[trigger] registers[i] matches Register::Waiter(_, to)
                ==> 0 <= to.id() < len),
    ensures
        in_range(incoming(registers), len),
    decreases registers.len(),
{
    if registers.len() > 0 {
        let rest = registers.drop_last();
        assert forall|i: int| 0 <= i < rest.len() implies (
        #[trigger] rest[i] matches Register::Waiter(_, to) ==> 0 <= to.id() < len) by {
            assert(rest[i] == registers[i]);
        }
        lemma_in_range(rest, len);
        assert(registers[registers.len() - 1] == registers.last());
    }
}

/// What the manager has learned when it turns to those who wait.
proof fn lemma_told<T, W, R: Fn(T, ResourceInfo) -> (T, bool)>(
    p: PoolView<T, W>,
    hook: Option<R>,
    now: u128,
    on_time: PoolView<T, W>,
    id: int,
)
    requires
        pool_inv(p),
        pool_inv(on_time),
        expiry(p, hook, now, on_time),
    ensures
        ({
            let told = after_inbox(after_news(on_time));
            &&& told.waits == on_time.waits
            &&& in_range(told.mgr.waiters, told.waits.len())
            &&& told.waits.len() == p.waits.len()
            &&& told.mgr.waiters == p.mgr.waiters + incoming(p.registers)
            &&& told.shared == (SharedView {
                events: Seq::<SharedEvent>::empty(),
                ..on_time.shared
            })
            &&& forall|e: TimerEntry<Timer>|
                p.mgr.timers.contains(e) && e.0 >= now ==> #[trigger] told.mgr.timers.contains(e)
            &&& forall|i: int|
                0 <= i < p.registers.len() ==> is_timed(
                    p.acquire_timeout,
                    #[trigger] p.registers[i],
                    told.mgr.timers,
                )
            &&& forall|i: int|
                0 <= i < p.shared.events.len() ==> (
                #[trigger] p.shared.events[i] matches SharedEvent::Verify(at, lock) ==> is_set(
                    told.mgr.timers,
                    at,
                    Timer::Verify(lock),
                ))
        }),
        0 <= id < p.waits.len() && (exists|i: int|
            0 <= i < p.mgr.timers.len() && (#[trigger] p.mgr.timers[i]).0 < now && calls_off(
                p.mgr.timers[i].2,
                id,
            )) ==> on_time.waits[id] == after_cancel(p.waits[id]),
        0 <= id < p.waits.len() && (forall|i: int|
            0 <= i < p.mgr.timers.len() && (#[trigger] p.mgr.timers[i]).0 < now ==> !calls_off(
                p.mgr.timers[i].2,
                id,
            )) ==> on_time.waits[id] == p.waits[id],
        on_time.acquire_timeout == p.acquire_timeout,
        after_inbox(after_news(on_time)).state == p.state,
        on_time.mgr.timers == remaining(p.mgr.timers, now),
{
    let start = with_mgr(p, ManagerView { timers: remaining(p.mgr.timers, now), ..p.mgr });
    let entries = expired(p.mgr.timers, now);
    law_split(p.mgr.timers, now);
    lemma_due(p.mgr.timers, now as int);
    assert forall|i: int| 0 <= i < entries.len() implies timer_known(
        start,
        (#[trigger] entries[i]).2,
    ) by {
        assert(entries[i] == p.mgr.timers[i]);
        assert(timer_known(p, p.mgr.timers[i].2));
    }
    lemma_expired(start, hook, entries, now, on_time, id);
    if exists|i: int|
        0 <= i < p.mgr.timers.len() && (#[trigger] p.mgr.timers[i]).0 < now && calls_off(
            p.mgr.timers[i].2,
            id,
        ) {
        let i = choose|i: int|
            0 <= i < p.mgr.timers.len() && (#[trigger] p.mgr.timers[i]).0 < now && calls_off(
                p.mgr.timers[i].2,
                id,
            );
        if i >= entries.len() {
            assert(remaining(p.mgr.timers, now)[i - entries.len()] == p.mgr.timers[i]);
        }
        assert(entries[i] == p.mgr.timers[i]);
        assert(calls_off(entries[i].2, id));
    } else {
        assert forall|i: int| 0 <= i < entries.len() implies !calls_off(
            (#[trigger] entries[i]).2,
            id,
        ) by {
            assert(entries[i].0 < now);
            assert(entries[i] == p.mgr.timers[i]);
        }
    }
    let news = after_news(on_time);
    lemma_events(on_time.mgr, on_time.shared.events);
    lemma_requests(news.mgr, news.acquire_timeout, news.registers);
    let told = after_inbox(news);
    assert forall|i: int| 0 <= i < p.registers.len() implies (
    #[trigger] p.registers[i] matches Register::Waiter(_, to) ==> 0 <= to.id()
        < on_time.waits.len()) by {
        assert(register_known(p, p.registers[i]));
    }
    lemma_in_range(p.registers, on_time.waits.len());
    assert forall|i: int| 0 <= i < told.mgr.waiters.len() implies 0 <= (
    #[trigger] told.mgr.waiters[i]).id() < told.waits.len() by {
        if i < p.mgr.waiters.len() {
            assert(awaited(p.waits, p.mgr.waiters[i]));
        } else {
            let came = incoming(p.registers);
            assert(told.mgr.waiters[i] == came[i - p.mgr.waiters.len()]);
        }
    }
    assert forall|e: TimerEntry<Timer>| p.mgr.timers.contains(e) && e.0 >= now implies #[trigger]
        told.mgr.timers.contains(e) by {
        let i = choose|i: int| 0 <= i < p.mgr.timers.len() && p.mgr.timers[i] == e;
        if i < entries.len() {
            assert(entries[i].0 < now);
        }
        assert(on_time.mgr.timers[i - entries.len()] == e);
        assert(news.mgr.timers.contains(e));
    }
    assert forall|i: int| 0 <= i < p.shared.events.len() implies (
    #[trigger] p.shared.events[i] matches SharedEvent::Verify(at, lock) ==> is_set(
        told.mgr.timers,
        at,
        Timer::Verify(lock),
    )) by {
        assert(on_time.shared.events[i] == p.shared.events[i]);
        if let SharedEvent::Verify(at, lock) = p.shared.events[i] {
            assert(is_set(news.mgr.timers, at, Timer::Verify(lock)));
            let n = choose|n: usize| #[trigger]
                news.mgr.timers.contains((at, n, Timer::Verify(lock)));
            assert(told.mgr.timers.contains((at, n, Timer::Verify(lock))));
        }
    }
}

proof fn lemma_after_waiters<T, W>(p: PoolView<T, W>, now: u128, id: int)
    requires
        in_range(p.mgr.waiters, p.waits.len()),
    ensures
        ({
            let post = after_waiters(p, now);
            &&& post.waits.len() == p.waits.len()
            &&& post.mgr.timers == p.mgr.timers
            &&& post.state == p.state
            &&& post.shared.busy == (p.mgr.waiters.len() > 0)
            &&& 0 <= id < p.waits.len() && !arrives(p.waits[id]) ==> post.waits[id] == p.waits[id]
        }),
{
    let told = with_shared(p, SharedView { busy: p.mgr.waiters.len() > 0, ..p.shared });
    lemma_all_served(told, now);
    lemma_closed(told, now, id);
}

/// Whoever waits longer than may be is told so: a wait whose timer has expired, and for
/// which nothing has come, is called off in the next round, and nothing is sent to it.
/// A timer is that of one who started to wait `acquire_timeout` before it.
pub proof fn law_late_wait_is_called_off<T, W, R: Fn(T, ResourceInfo) -> (T, bool)>(
    p: PoolView<T, W>,
    hook: Option<R>,
    now: u128,
    post: PoolView<T, W>,
    rest: Rest,
    to: WaitResponder,
    at: u128,
    start: u128,
    later: u128,
    waker: W,
)
    requires
        pool_inv(p),
        0 <= to.id() < p.waits.len(),
        wait_inv(p.waits[to.id()]),
        p.waits[to.id()].open,
        is_set(p.mgr.timers, at, Timer::Waiter(to)),
        at < now,
        round(p, hook, now, post, rest),
    ensures
        !post.waits[to.id()].open,
        attempt(post.waits[to.id()].shot, true) == Attempt::<Resolve<T>>::Ready(Err(Canceled)),
        progress(
            post,
            Some(AcquireView::Waiting(to.id())),
            start,
            later,
            waker,
        ).answer is Timeout,
{
    let id = to.id();
    let on_time = lemma_parts(p, hook, now, post, rest);
    lemma_told(p, hook, now, on_time, id);
    let number = choose|number: usize| #[trigger]
        p.mgr.timers.contains((at, number, Timer::Waiter(to)));
    let i = choose|i: int|
        0 <= i < p.mgr.timers.len() && p.mgr.timers[i] == (at, number, Timer::Waiter(to));
    assert(calls_off(p.mgr.timers[i].2, id));
    let told = after_inbox(after_news(on_time));
    lemma_after_waiters(told, now, id);
    lemma_round_end(after_waiters(told, now), id);
}

/// Every request of somebody who waits is timed: a timer is set that calls it off
/// `acquire_timeout` after it was made. The same holds of every request to be told
/// whether the pool is empty, of every resource that is to be verified, and of every
/// timer that was set before, past whose time the manager does not rest. The pool is
/// busy if somebody waits.
pub proof fn law_everybody_is_timed<T, W, R: Fn(T, ResourceInfo) -> (T, bool)>(
    p: PoolView<T, W>,
    hook: Option<R>,
    now: u128,
    post: PoolView<T, W>,
    rest: Rest,
    i: int,
)
    requires
        pool_inv(p),
        round(p, hook, now, post, rest),
        rest is Wait,
    ensures
        0 <= i < p.registers.len() ==> match p.registers[i] {
            Register::Waiter(start, to) => p.acquire_timeout is Some ==> is_set(
                post.mgr.timers,
                (start + p.acquire_timeout->0) as u128,
                Timer::Waiter(to),
            ),
            Register::Shutdown(at, to) => is_set(post.mgr.timers, at, Timer::Shutdown(to)),
        },
        0 <= i < p.shared.events.len() ==> (p.shared.events[i] matches SharedEvent::Verify(at, lock)
            ==> is_set(post.mgr.timers, at, Timer::Verify(lock))),
        0 <= i < p.mgr.timers.len() && p.mgr.timers[i].0 >= now ==> post.mgr.timers.contains(
            p.mgr.timers[i],
        ) && (rest matches Rest::Wait(Some(at)) && at <= p.mgr.timers[i].0),
        rest matches Rest::Wait(Some(at)) ==> exists|j: int|
            0 <= j < p.mgr.timers.len() && (#[trigger] p.mgr.timers[j]).0 == at,
        post.mgr.waiters.len() > 0 ==> post.shared.busy,
{
    let on_time = lemma_parts(p, hook, now, post, rest);
    lemma_told(p, hook, now, on_time, 0);
    let told = after_inbox(after_news(on_time));
    lemma_after_waiters(told, now, 0);
    let after = after_waiters(told, now);
    let busy = with_shared(
        told,
        SharedView { busy: told.mgr.waiters.len() > 0, ..told.shared },
    );
    lemma_all_served(busy, now);
    assert(!is_emptied(after_check(after)));
    assert(post.mgr.timers == told.mgr.timers);
    let left = remaining(p.mgr.timers, now);
    law_split(p.mgr.timers, now);
    lemma_due(p.mgr.timers, now as int);
    let gone = expired(p.mgr.timers, now).len() as int;
    if left.len() > 0 {
        assert(left[0] == p.mgr.timers[gone]);
    }
    if 0 <= i < p.registers.len() {
        assert(is_timed(p.acquire_timeout, p.registers[i], told.mgr.timers));
    }
    if 0 <= i < p.mgr.timers.len() && p.mgr.timers[i].0 >= now {
        assert(p.mgr.timers.contains(p.mgr.timers[i]));
        if i < gone {
            assert(expired(p.mgr.timers, now)[i].0 < now);
        }
        assert(left[i - gone] == p.mgr.timers[i]);
        law_first_is_earliest(left);
    }
    lemma_evicted_busy(after.shared, after.mgr.repo);
}

proof fn lemma_evicted_busy<T>(s: SharedView<T>, locks: Seq<ResourceLock>)
    ensures
        after_evictions(s, locks).busy == s.busy,
    decreases locks.len(),
{
    if locks.len() > 0 {
        lemma_evicted_busy(s, locks.drop_last());
    }
}

/// In a round in which no timer expires, the resources that were returned go to those
/// who wait: the one that was returned first to the one who came first, and so on, to
/// as many as there are resources, each as it was returned. Everybody else stays in
/// line.
pub proof fn law_each_in_line_gets_one<T, W, R: Fn(T, ResourceInfo) -> (T, bool)>(
    p: PoolView<T, W>,
    hook: Option<R>,
    now: u128,
    post: PoolView<T, W>,
    rest: Rest,
    i: int,
)
    requires
        pool_inv(p),
        forall|j: int| 0 <= j < p.mgr.timers.len() ==> (#[trigger] p.mgr.timers[j]).0 >= now,
        each_its_own(p.mgr.waiters + incoming(p.registers), p.waits),
        round(p, hook, now, post, rest),
    ensures
        ({
            let line = reachable(p.mgr.waiters + incoming(p.registers), p.waits);
            let goods = offered(p.shared.idle, p.shared.cells);
            &&& 0 <= i < line.len() && i < goods.len() ==> got(
                post,
                line[i],
                dealt(goods[i], now),
            )
            &&& goods.len() <= i < line.len() && rest is Wait ==> post.waits[line[i].id()]
                == p.waits[line[i].id()]
            &&& rest is Wait ==> reachable(post.mgr.waiters, post.waits) == (if goods.len()
                < line.len() {
                line.skip(goods.len() as int)
            } else {
                Seq::empty()
            })
        }),
{
    let on_time = lemma_parts(p, hook, now, post, rest);
    let entries = expired(p.mgr.timers, now);
    law_split(p.mgr.timers, now);
    if entries.len() > 0 {
        assert(entries[0].0 < now);
        assert(entries[0] == p.mgr.timers[0]);
    }
    assert(remaining(p.mgr.timers, now) =~= p.mgr.timers);
    assert(on_time == p);
    lemma_told(p, hook, now, on_time, 0);
    let told = after_inbox(after_news(p));
    let busy = with_shared(
        told,
        SharedView { busy: told.mgr.waiters.len() > 0, ..told.shared },
    );
    let after = after_waiters(told, now);
    let line = reachable(told.mgr.waiters, p.waits);
    let goods = offered(p.shared.idle, p.shared.cells);
    lemma_after_waiters(told, now, 0);
    lemma_members(told.mgr.waiters, told.waits);
    lemma_shared_out(busy, now, i);
    let gate = told.mgr.waiters.len() > 0 && (told.shared.idle.len() > 0 || can_create(
        told.shared,
    ));
    if !gate {
        assert(line.len() == 0 || goods.len() == 0);
        assert(line.skip(0) =~= line);
    }
    if after.waits.len() > 0 {
        lemma_round_end(after, 0);
    }
    if 0 <= i < line.len() {
        assert(told.mgr.waiters.contains(line[i]));
        let j = choose|j: int| 0 <= j < told.mgr.waiters.len() && told.mgr.waiters[j] == line[i];
        assert(0 <= told.mgr.waiters[j].id() < told.waits.len());
        if i < goods.len() {
            assert(gate);
            lemma_round_end(after, line[i].id());
        }
    }
}

/// Nobody is called off early: whoever still waits, and whose time is not over, is in a
/// round either sent a resource or left waiting, unless the pool is emptied for good.
pub proof fn law_nobody_is_called_off_early<T, W, R: Fn(T, ResourceInfo) -> (T, bool)>(
    p: PoolView<T, W>,
    hook: Option<R>,
    now: u128,
    post: PoolView<T, W>,
    rest: Rest,
    id: int,
)
    requires
        pool_inv(p),
        0 <= id < p.waits.len(),
        wait_inv(p.waits[id]),
        arrives(p.waits[id]),
        forall|i: int|
            0 <= i < p.mgr.timers.len() ==> ((#[trigger] p.mgr.timers[i]).0 >= now || !(
            p.mgr.timers[i].2 matches Timer::Waiter(to) && to.id() == id)),
        round(p, hook, now, post, rest),
        rest is Wait,
    ensures
        post.waits[id] == p.waits[id] || (attempt(post.waits[id].shot, true) matches Attempt::Ready(
            Ok(ResourceResolve::Resource(Some(guard))),
        ) && guard@.value is Some),
{
    let on_time = lemma_parts(p, hook, now, post, rest);
    assert forall|i: int|
        0 <= i < p.mgr.timers.len() && (#[trigger] p.mgr.timers[i]).0 < now implies !calls_off(
        p.mgr.timers[i].2,
        id,
    ) by {
    }
    lemma_told(p, hook, now, on_time, id);
    let told = after_inbox(after_news(on_time));
    lemma_after_waiters(told, now, id);
    lemma_sent_or_left(
        with_shared(told, SharedView { busy: told.mgr.waiters.len() > 0, ..told.shared }),
        now,
        id,
    );
    lemma_round_end(after_waiters(told, now), id);
}

proof fn lemma_sent_or_left<T, W>(p: PoolView<T, W>, now: u128, id: int)
    requires
        in_range(p.mgr.waiters, p.waits.len()),
        0 <= id < p.waits.len(),
        wait_inv(p.waits[id]),
        arrives(p.waits[id]),
    ensures
        ({
            let post = served(p, now);
            post.waits[id] == p.waits[id] || (attempt(post.waits[id].shot, true)
                matches Attempt::Ready(Ok(ResourceResolve::Resource(Some(guard))))
                && guard@.value is Some)
        }),
    decreases p.mgr.waiters.len(),
{
    if p.mgr.waiters.len() > 0 {
        let to = p.mgr.waiters[0];
        let tail = p.mgr.waiters.drop_first();
        assert forall|i: int| 0 <= i < tail.len() implies 0 <= (#[trigger] tail[i]).id()
            < p.waits.len() by {
            assert(tail[i] == p.mgr.waiters[i + 1]);
        }
        lemma_live_idle(p.shared.idle, p.shared.cells);
        if !arrives(p.waits[to.id()]) {
            lemma_sent_or_left(after_waiter(p), now, id);
        } else if next_idle(p.shared, now) is Some {
            let guard = next_idle(p.shared, now)->0;
            let taken = with_shared(p, after_acquire(p.shared));
            let q = after_waiter(after_serve(taken, to, guard));
            assert(served(p, now) == served(q, now));
            if to.id() == id {
                assert(q.waits[id] == after_reply(
                    p.waits[id],
                    ResourceResolve::Resource(Some(ResourceGuard::of(guard))),
                ));
                lemma_closed(q, now, id);
            } else {
                lemma_sent_or_left(q, now, id);
            }
        }
    }
}

/// The pool when the manager turns to those who wait.
pub proof fn lemma_told_range<T, W, R: Fn(T, ResourceInfo) -> (T, bool)>(
    p: PoolView<T, W>,
    hook: Option<R>,
    now: u128,
    on_time: PoolView<T, W>,
) -> (told: PoolView<T, W>)
    requires
        pool_inv(p),
        pool_inv(on_time),
        expiry(p, hook, now, on_time),
    ensures
        told == after_inbox(after_news(on_time)),
        in_range(told.mgr.waiters, told.waits.len()),
        told.waits.len() == p.waits.len(),
        told.mgr.waiters == p.mgr.waiters + incoming(p.registers),
{
    lemma_told(p, hook, now, on_time, 0);
    after_inbox(after_news(on_time))
}

proof fn lemma_conserved<T, W>(p: PoolView<T, W>, now: u128, lock: ResourceLock)
    requires
        in_range(p.mgr.waiters, p.waits.len()),
        forall|i: int|
            0 <= i < p.mgr.waiters.len() ==> wait_inv(
                p.waits[(#[trigger] p.mgr.waiters[i]).id()],
            ),
        forall|i: int|
            0 <= i < p.shared.idle.len() ==> known(p.shared.cells, #[trigger] p.shared.idle[i]),
        at_hand(p.shared.idle, p.shared.cells, lock),
    ensures
        ({
            let post = served(p, now);
            at_hand(post.shared.idle, post.shared.cells, lock) || exists|id: int| #[trigger]
                was_sent(post.waits, id, lock)
        }),
    decreases p.mgr.waiters.len(),
{
    if p.mgr.waiters.len() > 0 {
        let to = p.mgr.waiters[0];
        let tail = p.mgr.waiters.drop_first();
        assert forall|i: int| 0 <= i < tail.len() implies 0 <= (#[trigger] tail[i]).id()
            < p.waits.len() && wait_inv(p.waits[tail[i].id()]) by {
            assert(tail[i] == p.mgr.waiters[i + 1]);
        }
        let live = live_idle(p.shared.idle, p.shared.cells);
        lemma_live_idle(p.shared.idle, p.shared.cells);
        assert forall|i: int| 0 <= i < live.len() implies known(p.shared.cells, #[trigger] live[i]) by {
            assert(live[i] == p.shared.idle[i + p.shared.idle.len() - live.len()]);
        }
        lemma_live_keeps(p.shared.idle, p.shared.cells, lock);
        let j = choose|j: int| 0 <= j < live.len() && live[j] == lock;
        if !arrives(p.waits[to.id()]) {
            lemma_conserved(after_waiter(p), now, lock);
        } else {
            let guard = next_idle(p.shared, now)->0;
            let q = after_waiter(after_serve(with_shared(p, after_acquire(p.shared)), to, guard));
            assert(served(p, now) == served(q, now));
            if live[0] == lock {
                lemma_closed(q, now, to.id());
                assert(was_sent(served(q, now).waits, to.id(), lock));
            } else {
                assert(live.drop_first()[j - 1] == lock);
                assert forall|i: int| 0 <= i < q.shared.idle.len() implies known(
                    q.shared.cells,
                    #[trigger] q.shared.idle[i],
                ) by {
                    assert(q.shared.idle[i] == live[i + 1]);
                }
                assert forall|i: int| 0 <= i < q.mgr.waiters.len() implies wait_inv(
                    q.waits[(#[trigger] q.mgr.waiters[i]).id()],
                ) by {
                    let id = q.mgr.waiters[i].id();
                    if id == to.id() {
                        assert(wait_inv(p.waits[id]));
                    }
                }
                lemma_conserved(q, now, lock);
            }
        }
    }
}

/// No resource is lost when those who wait are served: one that was at hand still is, or
/// is on its way to somebody who waits.
pub proof fn law_no_resource_is_lost<T, W>(p: PoolView<T, W>, now: u128, lock: ResourceLock)
    requires
        pool_inv(p),
        forall|i: int|
            0 <= i < p.mgr.waiters.len() ==> wait_inv(
                p.waits[(#[trigger] p.mgr.waiters[i]).id()],
            ),
        at_hand(p.shared.idle, p.shared.cells, lock),
    ensures
        ({
            let post = after_waiters(p, now);
            at_hand(post.shared.idle, post.shared.cells, lock) || exists|id: int| #[trigger]
                was_sent(post.waits, id, lock)
        }),
{
    assert forall|i: int| 0 <= i < p.mgr.waiters.len() implies 0 <= (
    #[trigger] p.mgr.waiters[i]).id() < p.waits.len() by {
        assert(awaited(p.waits, p.mgr.waiters[i]));
    }
    let told = with_shared(p, SharedView { busy: p.mgr.waiters.len() > 0, ..p.shared });
    lemma_conserved(told, now, lock);
}

} // verus!
