//! What a round of the manager does for those who wait.

use vstd::prelude::*;

use crate::dropshot::{attempt, Attempt, Canceled};
use crate::pool::acquire::{progress, AcquireView};
use crate::pool::keeping::{
    agrees, all_good, law_good_resource_is_kept, law_timers_leave_the_minimum,
};
use crate::pool::model::{
    after_check, after_dismiss, after_events, after_evictions, after_inbox, after_last_timers,
    after_news, after_requests, after_round, after_serve, after_waiter, can_create, expiry,
    is_drained, lemma_live_idle, pool_inv, register_known, rest_after, round, served,
    timer_expires, timer_known, timers_expire, waiters_served, waiting_registers, with_mgr,
    with_shared, Access, ManagerView, PoolView, Register, Resolve, Rest, Timer,
};
use crate::pool::turns::{nothing_idle, reachable};
use crate::resource::info::ResourceInfo;
use crate::resource::lock::{
    known, ready, vacant, Cell, GuardView, ResourceGuard, ResourceLock,
};
use crate::resource::operation::ResourceResolve;
use crate::shared::{
    after_acquire, after_return, hook_says, live_idle, may_keep, next_idle, released, returned,
    shared_inv, SharedEvent, SharedView,
};
use crate::timers::{
    after_insert, due_before, expired, law_first_is_earliest, law_split, remaining, TimerEntry,
};
use crate::wait::{after_cancel, after_reply, arrives, awaited, wait_inv, WaitResponder, WaitView};

verus! {

broadcast use {
    ResourceLock::lemma_at,
    ResourceLock::lemma_same,
    ResourceGuard::lemma_of,
    ResourceGuard::lemma_view,
};

/// The resources that were returned and can be handed out, the one that was returned
/// first in front.
pub open spec fn offered<I, T>(
    idle: Seq<ResourceLock>,
    cells: Seq<Cell<I, T>>,
) -> Seq<GuardView<I, T>>
    decreases idle.len(),
{
    if idle.len() == 0 {
        Seq::empty()
    } else {
        match cells[idle[0].id()] {
            Cell::Free(info, Some(value)) => seq![
                GuardView { lock: idle[0], info, value: Some(value) },
            ] + offered(idle.drop_first(), cells.update(idle[0].id(), Cell::Held)),
            _ => offered(idle.drop_first(), cells),
        }
    }
}

/// Those who have asked the manager for a resource and were not called off, in the
/// order in which they asked.
pub open spec fn incoming<T, W>(
    registers: Seq<Register>,
    waits: Seq<WaitView<Resolve<T>, W>>,
) -> Seq<WaitResponder>
    decreases registers.len(),
{
    if registers.len() == 0 {
        Seq::empty()
    } else {
        let before = incoming(registers.drop_last(), waits);
        match registers.last() {
            Register::Waiter(_, to) => if waits[to.id()].open {
                before.push(to)
            } else {
                before
            },
            Register::Drain(_, _) => before,
        }
    }
}

/// Check that somebody was sent a resource.
pub open spec fn got<T, W>(p: PoolView<T, W>, to: WaitResponder, guard: Access<T>) -> bool {
    attempt(p.waits[to.id()].shot, true) == Attempt::<Resolve<T>>::Ready(
        Ok(ResourceResolve::Resource(Some(ResourceGuard::of(guard)))),
    )
}

/// Check that those in line have a reply each of their own.
pub open spec fn each_its_own<X, W>(
    waiters: Seq<WaitResponder>,
    waits: Seq<WaitView<X, W>>,
) -> bool {
    &&& forall|i: int|
        0 <= i < waiters.len() ==> 0 <= (#[trigger] waiters[i]).id() < waits.len() && wait_inv(
            waits[waiters[i].id()],
        )
    &&& forall|i: int, j: int|
        0 <= i < j < waiters.len() ==> (#[trigger] waiters[i]).id() != (
        #[trigger] waiters[j]).id()
}

proof fn lemma_offered<T>(s: SharedView<T>)
    ensures
        next_idle(s) is None ==> offered(s.idle, s.cells).len() == 0,
        next_idle(s) is Some ==> offered(s.idle, s.cells) == seq![next_idle(s)->0] + offered(
            after_acquire(s).idle,
            after_acquire(s).cells,
        ),
    decreases s.idle.len(),
{
    if s.idle.len() > 0 && !ready(s.cells, s.idle[0]) {
        lemma_offered(SharedView { idle: s.idle.drop_first(), ..s });
    }
}

/// Those behind the first in line.
pub proof fn lemma_tail<X, W>(waiters: Seq<WaitResponder>, waits: Seq<WaitView<X, W>>)
    requires
        waiters.len() > 0,
        each_its_own(waiters, waits),
    ensures
        each_its_own(waiters.drop_first(), waits),
        forall|i: int|
            0 <= i < waiters.drop_first().len() ==> (#[trigger] waiters.drop_first()[i]).id()
                != waiters[0].id(),
{
    let rest = waiters.drop_first();
    assert forall|i: int| 0 <= i < rest.len() implies 0 <= (#[trigger] rest[i]).id() < waits.len()
        && wait_inv(waits[rest[i].id()]) && rest[i].id() != waiters[0].id() by {
        assert(rest[i] == waiters[i + 1]);
    }
    assert forall|i: int, j: int| 0 <= i < j < rest.len() implies (#[trigger] rest[i]).id() != (
    #[trigger] rest[j]).id() by {
        assert(rest[i] == waiters[i + 1]);
        assert(rest[j] == waiters[j + 1]);
    }
}

/// Those whom a reply reaches are in line.
pub proof fn lemma_members<X, W>(waiters: Seq<WaitResponder>, waits: Seq<WaitView<X, W>>)
    ensures
        forall|i: int|
            0 <= i < reachable(waiters, waits).len() ==> waiters.contains(
                #[trigger] reachable(waiters, waits)[i],
            ) && arrives(waits[reachable(waiters, waits)[i].id()]),
        reachable(waiters, waits).len() <= waiters.len(),
    decreases waiters.len(),
{
    if waiters.len() > 0 {
        let rest = waiters.drop_first();
        lemma_members(rest, waits);
        let line = reachable(waiters, waits);
        let tail = reachable(rest, waits);
        assert forall|i: int| 0 <= i < line.len() implies waiters.contains(#[trigger] line[i])
            && arrives(waits[line[i].id()]) by {
            let to = line[i];
            if arrives(waits[waiters[0].id()]) && i == 0 {
                assert(to == waiters[0]);
            } else {
                let at = if arrives(waits[waiters[0].id()]) {
                    i - 1
                } else {
                    i
                };
                assert(to == tail[at]);
                assert(rest.contains(tail[at]));
                let j = choose|j: int| 0 <= j < rest.len() && rest[j] == to;
                assert(waiters[j + 1] == to);
            }
        }
    }
}

/// The replies of others do not matter.
pub proof fn lemma_same_line<X, W>(
    waiters: Seq<WaitResponder>,
    waits: Seq<WaitView<X, W>>,
    others: Seq<WaitView<X, W>>,
)
    requires
        others.len() == waits.len(),
        each_its_own(waiters, waits),
        forall|i: int|
            0 <= i < waiters.len() ==> others[(#[trigger] waiters[i]).id()]
                == waits[waiters[i].id()],
    ensures
        reachable(waiters, others) == reachable(waiters, waits),
        each_its_own(waiters, others),
    decreases waiters.len(),
{
    if waiters.len() > 0 {
        let rest = waiters.drop_first();
        lemma_tail(waiters, waits);
        assert(others[waiters[0].id()] == waits[waiters[0].id()]);
        assert forall|i: int| 0 <= i < rest.len() implies others[(#[trigger] rest[i]).id()]
            == waits[rest[i].id()] by {
            assert(rest[i] == waiters[i + 1]);
        }
        lemma_same_line(rest, waits, others);
    }
}

proof fn lemma_decided<T, W>(p: PoolView<T, W>, spare: Option<Access<T>>, id: int)
    requires
        each_its_own(p.mgr.waiters, p.waits),
        0 <= id < p.waits.len(),
        !p.waits[id].open || forall|i: int|
            0 <= i < p.mgr.waiters.len() ==> (#[trigger] p.mgr.waiters[i]).id() != id,
    ensures
        served(p, spare).0.waits[id] == p.waits[id],
        served(p, spare).0.waits.len() == p.waits.len(),
    decreases p.mgr.waiters.len(),
{
    if p.mgr.waiters.len() > 0 {
        let to = p.mgr.waiters[0];
        lemma_tail(p.mgr.waiters, p.waits);
        assert(!p.waits[id].open || to.id() != id);
        assert(!p.waits[id].open || forall|i: int|
            0 <= i < p.mgr.waiters.drop_first().len() ==> (
            #[trigger] p.mgr.waiters.drop_first()[i]).id() != id) by {
            if p.waits[id].open {
                assert forall|i: int| 0 <= i < p.mgr.waiters.drop_first().len() implies (
                #[trigger] p.mgr.waiters.drop_first()[i]).id() != id by {
                    assert(p.mgr.waiters.drop_first()[i] == p.mgr.waiters[i + 1]);
                }
            }
        }
        if !p.waits[to.id()].open {
            lemma_decided(after_waiter(p), spare, id);
        } else if spare is Some {
            let q = after_waiter(after_serve(p, to, spare->0));
            lemma_same_line(q.mgr.waiters, p.waits, q.waits);
            lemma_decided(
                q,
                if arrives(p.waits[to.id()]) {
                    None
                } else {
                    spare
                },
                id,
            );
        } else if next_idle(p.shared) is Some {
            let guard = next_idle(p.shared)->0;
            let q = after_waiter(after_serve(with_shared(p, after_acquire(p.shared)), to, guard));
            lemma_same_line(q.mgr.waiters, p.waits, q.waits);
            lemma_decided(
                q,
                if arrives(p.waits[to.id()]) {
                    None
                } else {
                    next_idle(p.shared)
                },
                id,
            );
        }
    }
}

/// What there is for those who wait: a resource that did not reach anybody, and those
/// that were returned.
spec fn supply<T>(s: SharedView<T>, spare: Option<Access<T>>) -> Seq<Access<T>> {
    match spare {
        Some(guard) => seq![guard] + offered(s.idle, s.cells),
        None => offered(s.idle, s.cells),
    }
}

proof fn lemma_got<T, W>(p: PoolView<T, W>, to: WaitResponder, guard: Access<T>)
    requires
        0 <= to.id() < p.waits.len(),
        wait_inv(p.waits[to.id()]),
        arrives(p.waits[to.id()]),
    ensures
        got(after_waiter(after_serve(p, to, guard)), to, guard),
        !after_serve(p, to, guard).waits[to.id()].open,
{
    assert(after_serve(p, to, guard).waits[to.id()] == after_reply(
        p.waits[to.id()],
        ResourceResolve::Resource(Some(ResourceGuard::of(guard))),
    ));
}

/// One step: the first of those who wait is offered what there is.
proof fn lemma_handed<T, W>(
    p: PoolView<T, W>,
    q: PoolView<T, W>,
    guard: Access<T>,
    goods: Seq<Access<T>>,
    spare: Option<Access<T>>,
)
    requires
        p.mgr.waiters.len() > 0,
        each_its_own(p.mgr.waiters, p.waits),
        p.waits[p.mgr.waiters[0].id()].open,
        q == (PoolView {
            shared: q.shared,
            ..after_waiter(after_serve(p, p.mgr.waiters[0], guard))
        }),
        goods.len() > 0,
        goods[0] == guard,
        spare == (if arrives(p.waits[p.mgr.waiters[0].id()]) {
            None
        } else {
            Some(guard)
        }),
        supply(q.shared, None) == goods.drop_first(),
    ensures
        each_its_own(q.mgr.waiters, q.waits),
        q.waits.len() == p.waits.len(),
        forall|j: int|
            0 <= j < q.mgr.waiters.len() ==> q.waits[(#[trigger] q.mgr.waiters[j]).id()]
                == p.waits[q.mgr.waiters[j].id()],
        arrives(p.waits[p.mgr.waiters[0].id()]) ==> {
            &&& supply(q.shared, spare) == goods.drop_first()
            &&& reachable(q.mgr.waiters, q.waits) == reachable(
                p.mgr.waiters,
                p.waits,
            ).drop_first()
            &&& reachable(p.mgr.waiters, p.waits).len() > 0
            &&& reachable(p.mgr.waiters, p.waits)[0] == p.mgr.waiters[0]
            &&& got(q, p.mgr.waiters[0], guard)
            &&& !q.waits[p.mgr.waiters[0].id()].open
        },
        !arrives(p.waits[p.mgr.waiters[0].id()]) ==> {
            &&& supply(q.shared, spare) == goods
            &&& reachable(q.mgr.waiters, q.waits) == reachable(p.mgr.waiters, p.waits)
        },
{
    let to = p.mgr.waiters[0];
    lemma_tail(p.mgr.waiters, p.waits);
    lemma_same_line(q.mgr.waiters, p.waits, q.waits);
    if arrives(p.waits[to.id()]) {
        lemma_got(p, to, guard);
        let line = reachable(p.mgr.waiters, p.waits);
        assert(line.drop_first() =~= reachable(q.mgr.waiters, q.waits));
    } else {
        assert(seq![guard] + goods.drop_first() =~= goods);
    }
}

proof fn lemma_shared_out<T, W>(p: PoolView<T, W>, spare: Option<Access<T>>, i: int)
    requires
        each_its_own(p.mgr.waiters, p.waits),
        0 <= i < reachable(p.mgr.waiters, p.waits).len(),
    ensures
        ({
            let line = reachable(p.mgr.waiters, p.waits);
            let goods = supply(p.shared, spare);
            let post = served(p, spare).0;
            &&& i < goods.len() ==> got(post, line[i], goods[i]) && !post.waits[line[i].id()].open
            &&& i >= goods.len() ==> post.waits[line[i].id()] == p.waits[line[i].id()]
        }),
    decreases p.mgr.waiters.len(),
{
    let line = reachable(p.mgr.waiters, p.waits);
    let goods = supply(p.shared, spare);
    let to = p.mgr.waiters[0];
    lemma_tail(p.mgr.waiters, p.waits);
    lemma_offered(p.shared);
    if !p.waits[to.id()].open {
        lemma_shared_out(after_waiter(p), spare, i);
    } else if spare is Some || next_idle(p.shared) is Some {
        let (taken, guard) = if spare is Some {
            (p, spare->0)
        } else {
            (with_shared(p, after_acquire(p.shared)), next_idle(p.shared)->0)
        };
        let q = after_waiter(after_serve(taken, to, guard));
        let left = if arrives(p.waits[to.id()]) {
            None
        } else {
            Some(guard)
        };
        assert(goods.drop_first() =~= supply(q.shared, None));
        lemma_handed(p, q, guard, goods, left);
        assert(served(p, spare) == served(q, left));
        if arrives(p.waits[to.id()]) {
            lemma_members(p.mgr.waiters, p.waits);
            if i == 0 {
                lemma_decided(q, left, to.id());
            } else {
                lemma_shared_out(q, left, i - 1);
                lemma_members(q.mgr.waiters, q.waits);
                let rest = reachable(q.mgr.waiters, q.waits);
                assert(line[i] == rest[i - 1]);
                assert(q.mgr.waiters.contains(rest[i - 1]));
                let j = choose|j: int| 0 <= j < q.mgr.waiters.len() && q.mgr.waiters[j]
                    == rest[i - 1];
                assert(q.waits[q.mgr.waiters[j].id()] == p.waits[q.mgr.waiters[j].id()]);
            }
        } else {
            lemma_shared_out(q, left, i);
            lemma_members(q.mgr.waiters, q.waits);
            assert(q.mgr.waiters.contains(line[i]));
            let j = choose|j: int| 0 <= j < q.mgr.waiters.len() && q.mgr.waiters[j] == line[i];
            assert(q.waits[q.mgr.waiters[j].id()] == p.waits[q.mgr.waiters[j].id()]);
        }
    }
}

proof fn lemma_all_served<T, W>(p: PoolView<T, W>, spare: Option<Access<T>>)
    ensures
        ({
            let (post, left) = served(p, spare);
            &&& post.mgr.waiters.len() == 0 || nothing_idle(post.shared)
            &&& left is Some ==> post.mgr.waiters.len() == 0
            &&& post.mgr.timers == p.mgr.timers
            &&& post.state == p.state
            &&& post.handles == p.handles
            &&& post.shared.count == p.shared.count
            &&& post.shared.min_count == p.shared.min_count
        }),
    decreases p.mgr.waiters.len(),
{
    if p.mgr.waiters.len() > 0 {
        let to = p.mgr.waiters[0];
        if !p.waits[to.id()].open {
            lemma_all_served(after_waiter(p), spare);
        } else if spare is Some {
            lemma_all_served(
                after_waiter(after_serve(p, to, spare->0)),
                if arrives(p.waits[to.id()]) {
                    None
                } else {
                    spare
                },
            );
        } else if next_idle(p.shared) is Some {
            lemma_all_served(
                after_waiter(
                    after_serve(
                        with_shared(p, after_acquire(p.shared)),
                        to,
                        next_idle(p.shared)->0,
                    ),
                ),
                if arrives(p.waits[to.id()]) {
                    None
                } else {
                    next_idle(p.shared)
                },
            );
        }
    }
}

proof fn lemma_evicted<T>(s: SharedView<T>, locks: Seq<ResourceLock>)
    requires
        forall|i: int| 0 <= i < locks.len() ==> known(s.cells, #[trigger] locks[i]),
    ensures
        after_evictions(s, locks).idle == s.idle,
        after_evictions(s, locks).cells.len() == s.cells.len(),
        after_evictions(s, locks).waiter_count == s.waiter_count,
        forall|lock: ResourceLock| #[trigger]
            ready(after_evictions(s, locks).cells, lock) && known(s.cells, lock) ==> ready(
                s.cells,
                lock,
            ),
    decreases locks.len(),
{
    if locks.len() > 0 {
        let rest = locks.drop_last();
        assert forall|i: int| 0 <= i < rest.len() implies known(s.cells, #[trigger] rest[i]) by {
            assert(rest[i] == locks[i]);
        }
        lemma_evicted(s, rest);
        assert(known(s.cells, locks[locks.len() - 1]));
        let mid = after_evictions(s, rest);
        let post = after_evictions(s, locks);
        assert forall|lock: ResourceLock| #[trigger]
            ready(post.cells, lock) && known(s.cells, lock) implies ready(s.cells, lock) by {
            if lock.id() != locks.last().id() || !ready(mid.cells, locks.last()) {
                assert(ready(mid.cells, lock));
            }
        }
    }
}

/// After a round of the manager, nobody waits while a resource that was returned can
/// be handed out.
pub proof fn law_nobody_waits_in_vain<T, W, R: Fn(T, ResourceInfo) -> (T, bool)>(
    p: PoolView<T, W>,
    hook: Option<R>,
    now: u128,
    post: PoolView<T, W>,
    rest: Rest,
    i: int,
)
    requires
        round(p, hook, now, post, rest),
        post.mgr.waiters.len() > 0,
        0 <= i < post.shared.idle.len(),
    ensures
        !(post.shared.cells[post.shared.idle[i].id()] matches Cell::Free(_, Some(_))),
{
    let (on_time, after) = lemma_parts(p, hook, now, post, rest);
    let told = after_inbox(after_news(on_time));
    lemma_all_served(told, None);
    assert(after.mgr.waiters.len() == 0 || nothing_idle(after.shared));
    lemma_evicted(after.shared, after.mgr.repo);
    assert(!is_drained(after_check(after)));
    assert(!ready(after.shared.cells, after.shared.idle[i]));
    assert(!ready(post.shared.cells, post.shared.idle[i]));
}

proof fn lemma_inserted(entries: Seq<TimerEntry<Timer>>, entry: TimerEntry<Timer>)
    ensures
        after_insert(entries, entry).contains(entry),
        forall|e: TimerEntry<Timer>|
            entries.contains(e) ==> #[trigger] after_insert(entries, entry).contains(e),
        forall|e: TimerEntry<Timer>| #[trigger]
            after_insert(entries, entry).contains(e) ==> e == entry || entries.contains(e),
{
    lemma_due(entries, entry.0 + 1);
    let at = due_before(entries, entry.0 + 1) as int;
    let more = after_insert(entries, entry);
    assert(more[at] == entry);
    assert forall|e: TimerEntry<Timer>| entries.contains(e) implies #[trigger] more.contains(e) by {
        let i = choose|i: int| 0 <= i < entries.len() && entries[i] == e;
        if i < at {
            assert(more[i] == e);
        } else {
            assert(more[i + 1] == e);
        }
    }
    assert forall|e: TimerEntry<Timer>| #[trigger] more.contains(e) implies e == entry
        || entries.contains(e) by {
        let i = choose|i: int| 0 <= i < more.len() && more[i] == e;
        if i < at {
            assert(entries[i] == e);
        } else if i > at {
            assert(entries[i - 1] == e);
        }
    }
}

proof fn lemma_due(entries: Seq<TimerEntry<Timer>>, at: int)
    ensures
        due_before(entries, at) <= entries.len(),
    decreases entries.len(),
{
    if entries.len() > 0 && entries.last().0 >= at {
        lemma_due(entries.drop_last(), at);
    }
}

/// Check that a timer is set.
pub open spec fn is_set(timers: Seq<TimerEntry<Timer>>, at: u128, timer: Timer) -> bool {
    exists|number: usize| #[trigger] timers.contains((at, number, timer))
}

/// Check that a timer stands for something that the manager has learned.
pub open spec fn accounted_for<T, W>(
    p: PoolView<T, W>,
    events: Seq<SharedEvent>,
    registers: Seq<Register>,
    entry: TimerEntry<Timer>,
) -> bool {
    ||| p.mgr.timers.contains(entry)
    ||| exists|i: int|
        0 <= i < events.len() && #[trigger] events[i] == SharedEvent::Verify(
            entry.0,
            entry.2->Verify_0,
        ) && entry.2 is Verify
    ||| exists|i: int|
        0 <= i < registers.len() && (match #[trigger] registers[i] {
            Register::Drain(at, to) => entry.0 == at && entry.2 == Timer::Drain(to),
            Register::Waiter(start, to) => p.acquire_timeout is Some && entry.0 == start
                + p.acquire_timeout->0 && entry.2 == Timer::Waiter(to),
        })
}

proof fn lemma_events<T, W>(p: PoolView<T, W>, events: Seq<SharedEvent>)
    ensures
        ({
            let m = after_events(p.mgr, events);
            &&& m.waiters == p.mgr.waiters
            &&& forall|e: TimerEntry<Timer>|
                p.mgr.timers.contains(e) ==> #[trigger] m.timers.contains(e)
            &&& forall|e: TimerEntry<Timer>| #[trigger]
                m.timers.contains(e) ==> accounted_for(p, events, Seq::empty(), e)
            &&& forall|i: int|
                0 <= i < events.len() ==> (#[trigger] events[i] matches SharedEvent::Verify(at, lock)
                    ==> is_set(m.timers, at, Timer::Verify(lock)))
        }),
    decreases events.len(),
{
    let m = after_events(p.mgr, events);
    if events.len() > 0 {
        let rest = events.drop_last();
        lemma_events(p, rest);
        let mid = after_events(p.mgr, rest);
        assert forall|e: TimerEntry<Timer>| accounted_for(p, rest, Seq::empty(), e) implies #[trigger]
            accounted_for(p, events, Seq::empty(), e) by {
            if !p.mgr.timers.contains(e) {
                let i = choose|i: int|
                    0 <= i < rest.len() && #[trigger] rest[i] == SharedEvent::Verify(
                        e.0,
                        e.2->Verify_0,
                    ) && e.2 is Verify;
                assert(events[i] == rest[i]);
            }
        }
        if let SharedEvent::Verify(at, lock) = events.last() {
            let number = (mid.timer_id + 1) as usize;
            let entry = (at, number, Timer::Verify(lock));
            lemma_inserted(mid.timers, entry);
            assert(m.timers.contains(entry));
            assert(events[events.len() - 1] == SharedEvent::Verify(at, lock));
            assert(accounted_for(p, events, Seq::empty(), entry));
        }
        assert forall|e: TimerEntry<Timer>| #[trigger] m.timers.contains(e) implies accounted_for(
            p,
            events,
            Seq::empty(),
            e,
        ) by {
            if mid.timers.contains(e) {
                assert(accounted_for(p, rest, Seq::empty(), e));
            } else {
                assert(events.last() is Verify);
                let at = events.last()->Verify_0;
                let lock = events.last()->Verify_1;
                let entry = (at, (mid.timer_id + 1) as usize, Timer::Verify(lock));
                lemma_inserted(mid.timers, entry);
                assert(e == entry);
            }
        }
        assert forall|i: int| 0 <= i < events.len() implies (
        #[trigger] events[i] matches SharedEvent::Verify(at, lock) ==> is_set(
            m.timers,
            at,
            Timer::Verify(lock),
        )) by {
            if events[i] is Verify && i < rest.len() {
                assert(rest[i] == events[i]);
                let at = rest[i]->Verify_0;
                let timer = Timer::Verify(rest[i]->Verify_1);
                let number = choose|number: usize| #[trigger]
                    mid.timers.contains((at, number, timer));
                assert(m.timers.contains((at, number, timer)));
            }
        }
    }
}

/// Check that the manager has set the timer that a request calls for.
pub open spec fn is_timed<T, W>(
    p: PoolView<T, W>,
    register: Register,
    timers: Seq<TimerEntry<Timer>>,
) -> bool {
    match register {
        Register::Drain(at, to) => is_set(timers, at, Timer::Drain(to)),
        Register::Waiter(start, to) => p.waits[to.id()].open && p.acquire_timeout is Some
            ==> is_set(timers, (start + p.acquire_timeout->0) as u128, Timer::Waiter(to)),
    }
}

proof fn lemma_requests<T, W>(p: PoolView<T, W>, registers: Seq<Register>)
    requires
        forall|i: int|
            0 <= i < registers.len() ==> (#[trigger] registers[i] matches Register::Waiter(start, _)
                ==> p.acquire_timeout is Some ==> start + p.acquire_timeout->0 <= u128::MAX),
    ensures
        ({
            let q = after_requests(p, registers);
            &&& q.waits == p.waits
            &&& q.acquire_timeout == p.acquire_timeout
            &&& q.shared == (SharedView { notified: q.shared.notified, ..p.shared })
            &&& q.handles == p.handles
            &&& q.verify == p.verify
            &&& q.mgr.waiters == p.mgr.waiters + incoming(registers, p.waits)
            &&& q.mgr.repo == p.mgr.repo
            &&& forall|e: TimerEntry<Timer>|
                p.mgr.timers.contains(e) ==> #[trigger] q.mgr.timers.contains(e)
            &&& forall|e: TimerEntry<Timer>| #[trigger]
                q.mgr.timers.contains(e) ==> accounted_for(p, Seq::empty(), registers, e)
            &&& forall|i: int|
                0 <= i < registers.len() ==> is_timed(p, #[trigger] registers[i], q.mgr.timers)
            &&& (forall|i: int| 0 <= i < registers.len() ==> #[trigger] registers[i] is Waiter)
                ==> q.state == p.state
        }),
    decreases registers.len(),
{
    let q = after_requests(p, registers);
    if registers.len() > 0 {
        let rest = registers.drop_last();
        assert forall|i: int| 0 <= i < rest.len() implies (
        #[trigger] rest[i] matches Register::Waiter(start, _) ==> p.acquire_timeout is Some
            ==> start + p.acquire_timeout->0 <= u128::MAX) by {
            assert(rest[i] == registers[i]);
        }
        lemma_requests(p, rest);
        let mid = after_requests(p, rest);
        let last = registers[registers.len() - 1];
        assert(last == registers.last());
        let none = Seq::<SharedEvent>::empty();
        assert forall|e: TimerEntry<Timer>| accounted_for(p, none, rest, e) implies #[trigger]
            accounted_for(p, none, registers, e) by {
            if !p.mgr.timers.contains(e) {
                let i = choose|i: int|
                    0 <= i < rest.len() && (match #[trigger] rest[i] {
                        Register::Drain(at, to) => e.0 == at && e.2 == Timer::Drain(to),
                        Register::Waiter(start, to) => p.acquire_timeout is Some && e.0 == start
                            + p.acquire_timeout->0 && e.2 == Timer::Waiter(to),
                    });
                assert(registers[i] == rest[i]);
            }
        }
        let number = (mid.mgr.timer_id + 1) as usize;
        let entry = match last {
            Register::Drain(at, to) => (at, number, Timer::Drain(to)),
            Register::Waiter(start, to) => (
                (start + p.acquire_timeout->0) as u128,
                number,
                Timer::Waiter(to),
            ),
        };
        lemma_inserted(mid.mgr.timers, entry);
        assert(q.mgr.timers == mid.mgr.timers || q.mgr.timers == after_insert(
            mid.mgr.timers,
            entry,
        ));
        assert(q.mgr.timers != mid.mgr.timers ==> accounted_for(p, none, registers, entry));
        assert forall|e: TimerEntry<Timer>| #[trigger] q.mgr.timers.contains(e) implies accounted_for(
            p,
            none,
            registers,
            e,
        ) by {
            if mid.mgr.timers.contains(e) {
                assert(accounted_for(p, none, rest, e));
            }
        }
        assert forall|i: int| 0 <= i < registers.len() implies is_timed(
            p,
            #[trigger] registers[i],
            q.mgr.timers,
        ) by {
            if i < rest.len() {
                assert(rest[i] == registers[i]);
                assert(is_timed(p, rest[i], mid.mgr.timers));
                assert forall|at: u128, timer: Timer| #[trigger]
                    is_set(mid.mgr.timers, at, timer) implies is_set(
                    q.mgr.timers,
                    at,
                    timer,
                ) by {
                    let n = choose|n: usize| #[trigger]
                        mid.mgr.timers.contains((at, n, timer));
                    assert(q.mgr.timers.contains((at, n, timer)));
                }
                match registers[i] {
                    Register::Drain(at, to) => {
                        assert(is_set(mid.mgr.timers, at, Timer::Drain(to)));
                    },
                    Register::Waiter(start, to) => {
                        if p.waits[to.id()].open && p.acquire_timeout is Some {
                            assert(is_set(
                                mid.mgr.timers,
                                (start + p.acquire_timeout->0) as u128,
                                Timer::Waiter(to),
                            ));
                        }
                    },
                }
            } else if last is Drain || (p.waits[last->Waiter_1.id()].open && p.acquire_timeout
                is Some) {
                assert(q.mgr.timers.contains((entry.0, entry.1, entry.2)));
            }
        }
        assert(q.mgr.waiters =~= p.mgr.waiters + incoming(registers, p.waits));
        if forall|i: int| 0 <= i < registers.len() ==> #[trigger] registers[i] is Waiter {
            assert forall|i: int| 0 <= i < rest.len() implies #[trigger] rest[i] is Waiter by {
                assert(rest[i] == registers[i]);
            }
            assert(last is Waiter);
        }
    } else {
        assert(q.mgr.waiters =~= p.mgr.waiters + incoming(registers, p.waits));
    }
}

/// Check that a timer calls a wait off.
spec fn calls_off(timer: Timer, id: int) -> bool {
    timer matches Timer::Waiter(to) && to.id() == id
}

proof fn lemma_expired<T, W, R: Fn(T, ResourceInfo) -> (T, bool)>(
    p: PoolView<T, W>,
    hook: Option<R>,
    entries: Seq<TimerEntry<Timer>>,
    now: u128,
    post: PoolView<T, W>,
    id: int,
)
    requires
        timers_expire(p, hook, entries, now, post),
        forall|i: int| 0 <= i < entries.len() ==> timer_known(p, (#[trigger] entries[i]).2),
    ensures
        post.waits.len() == p.waits.len(),
        post.drains.len() == p.drains.len(),
        post.shared.cells.len() >= p.shared.cells.len(),
        post.mgr.waiters == p.mgr.waiters,
        post.mgr.timers == p.mgr.timers,
        post.registers == p.registers,
        post.acquire_timeout == p.acquire_timeout,
        post.handles == p.handles,
        p.shared.events.is_prefix_of(post.shared.events),
        0 <= id < p.waits.len() && (exists|i: int|
            0 <= i < entries.len() && calls_off((#[trigger] entries[i]).2, id)) ==> post.waits[id] == after_cancel(p.waits[id]),
        0 <= id < p.waits.len() && (forall|i: int|
            0 <= i < entries.len() ==> !calls_off((#[trigger] entries[i]).2, id)) ==> post.waits[id] == p.waits[id],
        p.state is Active ==> post.state is Active,
    decreases entries.len(),
{
    if entries.len() > 0 {
        let rest = entries.drop_last();
        let entry = entries.last();
        let mid = choose|mid: PoolView<T, W>|
            timers_expire(p, hook, rest, now, mid) && #[trigger] timer_expires(
                mid,
                hook,
                entry,
                now,
                post,
            );
        assert forall|i: int| 0 <= i < rest.len() implies timer_known(
            p,
            (#[trigger] rest[i]).2,
        ) by {
            assert(rest[i] == entries[i]);
        }
        lemma_expired(p, hook, rest, now, mid, id);
        assert(timer_known(p, entries[entries.len() - 1].2));
        if exists|i: int| 0 <= i < entries.len() && calls_off((#[trigger] entries[i]).2, id) {
            let i = choose|i: int| 0 <= i < entries.len() && calls_off((#[trigger] entries[i]).2, id);
            if i < rest.len() {
                assert(rest[i] == entries[i]);
                assert(calls_off(rest[i].2, id));
                assert(mid.waits[id] == after_cancel(p.waits[id]));
            } else if exists|j: int| 0 <= j < rest.len() && calls_off((#[trigger] rest[j]).2, id) {
                assert(mid.waits[id] == after_cancel(p.waits[id]));
            } else {
                assert(mid.waits[id] == p.waits[id]);
            }
        } else {
            assert forall|j: int| 0 <= j < rest.len() implies !calls_off(
                (#[trigger] rest[j]).2,
                id,
            ) by {
                assert(rest[j] == entries[j]);
            }
            assert(!calls_off(entries[entries.len() - 1].2, id));
        }
    }
}

proof fn lemma_last<T, W>(p: PoolView<T, W>, timers: Seq<TimerEntry<Timer>>, id: int)
    requires
        0 <= id < p.waits.len(),
        !p.waits[id].open,
        forall|i: int| 0 <= i < timers.len() ==> timer_known(p, (#[trigger] timers[i]).2),
    ensures
        after_last_timers(p, timers).waits[id] == p.waits[id],
        after_last_timers(p, timers).waits.len() == p.waits.len(),
        after_last_timers(p, timers).mgr == p.mgr,
    decreases timers.len(),
{
    if timers.len() > 0 {
        let rest = timers.drop_last();
        assert forall|i: int| 0 <= i < rest.len() implies timer_known(
            p,
            (#[trigger] rest[i]).2,
        ) by {
            assert(rest[i] == timers[i]);
        }
        lemma_last(p, rest, id);
        assert(timer_known(p, timers[timers.len() - 1].2));
    }
}

proof fn lemma_dismissed<T, W>(p: PoolView<T, W>, waiters: Seq<WaitResponder>, id: int)
    requires
        0 <= id < p.waits.len(),
        !p.waits[id].open,
        forall|i: int|
            0 <= i < waiters.len() ==> 0 <= (#[trigger] waiters[i]).id() < p.waits.len(),
    ensures
        after_dismiss(p, waiters).waits[id] == p.waits[id],
        after_dismiss(p, waiters).waits.len() == p.waits.len(),
    decreases waiters.len(),
{
    if waiters.len() > 0 {
        let rest = waiters.drop_last();
        assert forall|i: int| 0 <= i < rest.len() implies 0 <= (#[trigger] rest[i]).id()
            < p.waits.len() by {
            assert(rest[i] == waiters[i]);
        }
        lemma_dismissed(p, rest, id);
        assert(0 <= waiters[waiters.len() - 1].id() < p.waits.len());
    }
}

/// A wait that is decided stays as it is to the end of a round.
proof fn lemma_round_end<T, W>(p: PoolView<T, W>, id: int)
    requires
        pool_inv(p),
        0 <= id < p.waits.len(),
    ensures
        !p.waits[id].open ==> after_round(p).waits[id] == p.waits[id],
        rest_after(p) is Wait ==> after_round(p).waits == p.waits && after_round(p).mgr.timers
            == p.mgr.timers && after_round(p).mgr.waiters == p.mgr.waiters && after_round(p).state
            == p.state,
        rest_after(p) is Stop ==> after_round(p).state is Stopped,
{
    let q = after_check(p);
    if is_drained(q) && !p.waits[id].open {
        lemma_evicted(p.shared, p.mgr.repo);
        assert forall|i: int| 0 <= i < q.mgr.timers.len() implies timer_known(
            q,
            (#[trigger] q.mgr.timers[i]).2,
        ) by {
            assert(timer_known(p, p.mgr.timers[i].2));
        }
        lemma_last(q, q.mgr.timers, id);
        let told = after_last_timers(q, q.mgr.timers);
        assert(told.mgr.waiters == q.mgr.waiters);
        assert forall|i: int| 0 <= i < q.mgr.waiters.len() implies 0 <= (
        #[trigger] q.mgr.waiters[i]).id() < told.waits.len() by {
            assert(awaited(p.waits, p.mgr.waiters[i]));
        }
        lemma_dismissed(told, q.mgr.waiters, id);
    }
}

/// What the manager has learned when it turns to those who wait.
proof fn lemma_told<T, W, R: Fn(T, ResourceInfo) -> (T, bool)>(
    p: PoolView<T, W>,
    hook: Option<R>,
    now: u128,
    on_time: PoolView<T, W>,
    id: int,
)
    requires
        pool_inv(p),
        pool_inv(on_time),
        expiry(p, hook, now, on_time),
    ensures
        ({
            let told = after_inbox(after_news(on_time));
            &&& told.waits == on_time.waits
            &&& in_range(told.mgr.waiters, told.waits.len())
            &&& told.waits.len() == p.waits.len()
            &&& told.mgr.waiters == p.mgr.waiters + incoming(p.registers, on_time.waits)
            &&& told.shared == (SharedView {
                events: Seq::<SharedEvent>::empty(),
                notified: told.shared.notified,
                ..on_time.shared
            })
            &&& forall|e: TimerEntry<Timer>|
                p.mgr.timers.contains(e) && e.0 >= now ==> #[trigger] told.mgr.timers.contains(e)
            &&& forall|i: int|
                0 <= i < p.registers.len() ==> is_timed(
                    on_time,
                    #[trigger] p.registers[i],
                    told.mgr.timers,
                )
            &&& forall|i: int|
                0 <= i < p.shared.events.len() ==> (
                #[trigger] p.shared.events[i] matches SharedEvent::Verify(at, lock) ==> is_set(
                    told.mgr.timers,
                    at,
                    Timer::Verify(lock),
                ))
        }),
        0 <= id < p.waits.len() && (exists|i: int|
            0 <= i < p.mgr.timers.len() && (#[trigger] p.mgr.timers[i]).0 < now && calls_off(
                p.mgr.timers[i].2,
                id,
            )) ==> on_time.waits[id] == after_cancel(p.waits[id]),
        0 <= id < p.waits.len() && (forall|i: int|
            0 <= i < p.mgr.timers.len() && (#[trigger] p.mgr.timers[i]).0 < now ==> !calls_off(
                p.mgr.timers[i].2,
                id,
            )) ==> on_time.waits[id] == p.waits[id],
        on_time.acquire_timeout == p.acquire_timeout,
        p.state is Active && (forall|i: int|
            0 <= i < p.registers.len() ==> #[trigger] p.registers[i] is Waiter)
            ==> after_inbox(after_news(on_time)).state is Active,
{
    let start = with_mgr(p, ManagerView { timers: remaining(p.mgr.timers, now), ..p.mgr });
    let entries = expired(p.mgr.timers, now);
    law_split(p.mgr.timers, now);
    lemma_due(p.mgr.timers, now as int);
    assert forall|i: int| 0 <= i < entries.len() implies timer_known(
        start,
        (#[trigger] entries[i]).2,
    ) by {
        assert(entries[i] == p.mgr.timers[i]);
        assert(timer_known(p, p.mgr.timers[i].2));
    }
    lemma_expired(start, hook, entries, now, on_time, id);
    if exists|i: int|
        0 <= i < p.mgr.timers.len() && (#[trigger] p.mgr.timers[i]).0 < now && calls_off(
            p.mgr.timers[i].2,
            id,
        ) {
        let i = choose|i: int|
            0 <= i < p.mgr.timers.len() && (#[trigger] p.mgr.timers[i]).0 < now && calls_off(
                p.mgr.timers[i].2,
                id,
            );
        if i >= entries.len() {
            assert(remaining(p.mgr.timers, now)[i - entries.len()] == p.mgr.timers[i]);
        }
        assert(entries[i] == p.mgr.timers[i]);
        assert(calls_off(entries[i].2, id));
    } else {
        assert forall|i: int| 0 <= i < entries.len() implies !calls_off(
            (#[trigger] entries[i]).2,
            id,
        ) by {
            assert(entries[i].0 < now);
            assert(entries[i] == p.mgr.timers[i]);
        }
    }
    let news = after_news(on_time);
    lemma_events(on_time, on_time.shared.events);
    let cleared = PoolView { registers: Seq::empty(), ..news };
    assert forall|i: int| 0 <= i < news.registers.len() implies (
    #[trigger] news.registers[i] matches Register::Waiter(start, _) ==> cleared.acquire_timeout
        is Some ==> start + cleared.acquire_timeout->0 <= u128::MAX) by {
        assert(register_known(on_time, on_time.registers[i]));
    }
    lemma_requests(cleared, news.registers);
    let told = after_inbox(news);
    assert forall|i: int| 0 <= i < p.registers.len() implies (
    #[trigger] p.registers[i] matches Register::Waiter(_, to) ==> 0 <= to.id()
        < on_time.waits.len()) by {
        assert(register_known(p, p.registers[i]));
    }
    lemma_incoming(p.registers, on_time.waits);
    assert forall|i: int| 0 <= i < told.mgr.waiters.len() implies 0 <= (
    #[trigger] told.mgr.waiters[i]).id() < told.waits.len() by {
        if i < p.mgr.waiters.len() {
            assert(awaited(p.waits, p.mgr.waiters[i]));
        } else {
            let came = incoming(p.registers, on_time.waits);
            assert(told.mgr.waiters[i] == came[i - p.mgr.waiters.len()]);
        }
    }
    assert forall|e: TimerEntry<Timer>| p.mgr.timers.contains(e) && e.0 >= now implies #[trigger]
        told.mgr.timers.contains(e) by {
        let i = choose|i: int| 0 <= i < p.mgr.timers.len() && p.mgr.timers[i] == e;
        if i < entries.len() {
            assert(entries[i].0 < now);
        }
        assert(on_time.mgr.timers[i - entries.len()] == e);
        assert(news.mgr.timers.contains(e));
    }
    assert forall|i: int| 0 <= i < p.shared.events.len() implies (
    #[trigger] p.shared.events[i] matches SharedEvent::Verify(at, lock) ==> is_set(
        told.mgr.timers,
        at,
        Timer::Verify(lock),
    )) by {
        assert(on_time.shared.events[i] == p.shared.events[i]);
        if let SharedEvent::Verify(at, lock) = p.shared.events[i] {
            assert(is_set(news.mgr.timers, at, Timer::Verify(lock)));
            let n = choose|n: usize| #[trigger]
                news.mgr.timers.contains((at, n, Timer::Verify(lock)));
            assert(told.mgr.timers.contains((at, n, Timer::Verify(lock))));
        }
    }
    assert forall|i: int| 0 <= i < p.registers.len() implies is_timed(
        on_time,
        #[trigger] p.registers[i],
        told.mgr.timers,
    ) by {
        assert(is_timed(cleared, news.registers[i], told.mgr.timers));
    }
}

/// What serving those who wait does to replies.
pub proof fn lemma_waiters_served<T, W, R: Fn(T, ResourceInfo) -> (T, bool)>(
    p: PoolView<T, W>,
    hook: Option<R>,
    now: u128,
    post: PoolView<T, W>,
)
    requires
        waiters_served(p, hook, now, post),
        in_range(p.mgr.waiters, p.waits.len()),
    ensures
        post.waits.len() == p.waits.len(),
        post.mgr.timers == p.mgr.timers,
        post.state == p.state,
        post.handles == p.handles,
        post.waits == p.waits || post.waits == served(p, None).0.waits,
{
    lemma_all_served(p, None);
    lemma_closed(p, None, 0);
}

/// Whoever waits longer than may be is told so: a wait whose timer has expired, and for
/// which nothing has come, is called off in the next round, and nothing is sent to it.
/// A timer is that of one who started to wait `acquire_timeout` before it.
pub proof fn law_late_wait_is_called_off<T, W, R: Fn(T, ResourceInfo) -> (T, bool)>(
    p: PoolView<T, W>,
    hook: Option<R>,
    now: u128,
    post: PoolView<T, W>,
    rest: Rest,
    to: WaitResponder,
    at: u128,
    start: u128,
    later: u128,
    waker: W,
)
    requires
        pool_inv(p),
        0 <= to.id() < p.waits.len(),
        wait_inv(p.waits[to.id()]),
        p.waits[to.id()].open,
        is_set(p.mgr.timers, at, Timer::Waiter(to)),
        at < now,
        round(p, hook, now, post, rest),
    ensures
        !post.waits[to.id()].open,
        attempt(post.waits[to.id()].shot, true) == Attempt::<Resolve<T>>::Ready(Err(Canceled)),
        progress(
            post,
            Some(AcquireView::Waiting(to.id())),
            start,
            later,
            waker,
        ).answer is Timeout,
{
    let id = to.id();
    let (on_time, after) = lemma_parts(p, hook, now, post, rest);
    lemma_told(p, hook, now, on_time, id);
    let number = choose|number: usize| #[trigger]
        p.mgr.timers.contains((at, number, Timer::Waiter(to)));
    let i = choose|i: int|
        0 <= i < p.mgr.timers.len() && p.mgr.timers[i] == (at, number, Timer::Waiter(to));
    assert(calls_off(p.mgr.timers[i].2, id));
    let told = after_inbox(after_news(on_time));
    assert(!told.waits[id].open);
    lemma_closed(told, None, id);
    lemma_waiters_served(told, hook, now, after);
    lemma_round_end(after, id);
}

/// Check that the replies to those in line are there.
pub open spec fn in_range(waiters: Seq<WaitResponder>, len: nat) -> bool {
    forall|i: int| 0 <= i < waiters.len() ==> 0 <= (#[trigger] waiters[i]).id() < len
}

/// What serving those who wait does to replies.
pub proof fn lemma_closed<T, W>(p: PoolView<T, W>, spare: Option<Access<T>>, id: int)
    requires
        in_range(p.mgr.waiters, p.waits.len()),
    ensures
        served(p, spare).0.waits.len() == p.waits.len(),
        0 <= id < p.waits.len() && !p.waits[id].open ==> served(p, spare).0.waits[id]
            == p.waits[id],
    decreases p.mgr.waiters.len(),
{
    if p.mgr.waiters.len() > 0 {
        let to = p.mgr.waiters[0];
        let tail = p.mgr.waiters.drop_first();
        assert forall|i: int| 0 <= i < tail.len() implies 0 <= (#[trigger] tail[i]).id()
            < p.waits.len() by {
            assert(tail[i] == p.mgr.waiters[i + 1]);
        }
        let left = if arrives(p.waits[to.id()]) {
            None
        } else if spare is Some {
            spare
        } else {
            next_idle(p.shared)
        };
        if !p.waits[to.id()].open {
            lemma_closed(after_waiter(p), spare, id);
        } else if spare is Some {
            lemma_closed(after_waiter(after_serve(p, to, spare->0)), left, id);
        } else if next_idle(p.shared) is Some {
            let q = with_shared(p, after_acquire(p.shared));
            lemma_closed(after_waiter(after_serve(q, to, next_idle(p.shared)->0)), left, id);
        }
    }
}

proof fn lemma_incoming<T, W>(registers: Seq<Register>, waits: Seq<WaitView<Resolve<T>, W>>)
    requires
        forall|i: int|
            0 <= i < registers.len() ==> (#[trigger] registers[i] matches Register::Waiter(_, to)
                ==> 0 <= to.id() < waits.len()),
    ensures
        in_range(incoming(registers, waits), waits.len()),
    decreases registers.len(),
{
    if registers.len() > 0 {
        let rest = registers.drop_last();
        assert forall|i: int| 0 <= i < rest.len() implies (
        #[trigger] rest[i] matches Register::Waiter(_, to) ==> 0 <= to.id() < waits.len()) by {
            assert(rest[i] == registers[i]);
        }
        lemma_incoming(rest, waits);
        assert(registers[registers.len() - 1] == registers.last());
    }
}

/// Every request of somebody who waits is timed: as long as there is no reply to it, a
/// timer is set that calls it off `acquire_timeout` after it was made, and the manager
/// does not rest longer. The same holds of every request to empty the pool, of every
/// resource that is to be verified, and of every timer that was set before.
pub proof fn law_everybody_is_timed<T, W, R: Fn(T, ResourceInfo) -> (T, bool)>(
    p: PoolView<T, W>,
    hook: Option<R>,
    now: u128,
    post: PoolView<T, W>,
    rest: Rest,
    i: int,
)
    requires
        pool_inv(p),
        round(p, hook, now, post, rest),
        rest is Wait,
    ensures
        0 <= i < p.registers.len() ==> match p.registers[i] {
            Register::Waiter(start, to) => post.waits[to.id()].open && p.acquire_timeout is Some
                ==> is_set(
                post.mgr.timers,
                (start + p.acquire_timeout->0) as u128,
                Timer::Waiter(to),
            ),
            Register::Drain(at, to) => is_set(post.mgr.timers, at, Timer::Drain(to)),
        },
        0 <= i < p.shared.events.len() ==> (p.shared.events[i] matches SharedEvent::Verify(at, lock)
            ==> is_set(post.mgr.timers, at, Timer::Verify(lock))),
        0 <= i < p.mgr.timers.len() && p.mgr.timers[i].0 >= now ==> post.mgr.timers.contains(
            p.mgr.timers[i],
        ),
        0 <= i < post.mgr.timers.len() ==> (rest matches Rest::Wait(Some(at)) && at
            <= post.mgr.timers[i].0),
        rest matches Rest::Wait(Some(at)) ==> exists|j: int|
            0 <= j < post.mgr.timers.len() && (#[trigger] post.mgr.timers[j]).0 == at,
{
    let (on_time, after) = lemma_parts(p, hook, now, post, rest);
    let told = after_inbox(after_news(on_time));
    lemma_told(p, hook, now, on_time, 0);
    lemma_waiters_served(told, hook, now, after);
    assert(!is_drained(after_check(after)));
    assert(post.mgr.timers == told.mgr.timers);
    law_first_is_earliest(post.mgr.timers);
    if 0 <= i < p.registers.len() {
        assert(is_timed(on_time, p.registers[i], told.mgr.timers));
        if let Register::Waiter(start, to) = p.registers[i] {
            assert(register_known(p, p.registers[i]));
            if post.waits[to.id()].open {
                lemma_told(p, hook, now, on_time, to.id());
                lemma_round_end(after, to.id());
                if !told.waits[to.id()].open {
                    lemma_closed(told, None, to.id());
                }
                assert(told.waits[to.id()].open);
            }
        }
    }
}

proof fn lemma_left_in_line<T, W>(p: PoolView<T, W>, spare: Option<Access<T>>)
    requires
        each_its_own(p.mgr.waiters, p.waits),
        p.shared.waiter_count >= p.mgr.waiters.len(),
    ensures
        ({
            let line = reachable(p.mgr.waiters, p.waits);
            let goods = supply(p.shared, spare);
            let post = served(p, spare).0;
            &&& reachable(post.mgr.waiters, post.waits) == (if goods.len() < line.len() {
                line.skip(goods.len() as int)
            } else {
                Seq::empty()
            })
            &&& p.shared.waiter_count - post.shared.waiter_count == p.mgr.waiters.len()
                - post.mgr.waiters.len()
        }),
    decreases p.mgr.waiters.len(),
{
    let line = reachable(p.mgr.waiters, p.waits);
    let goods = supply(p.shared, spare);
    lemma_offered(p.shared);
    if p.mgr.waiters.len() > 0 {
        let to = p.mgr.waiters[0];
        lemma_tail(p.mgr.waiters, p.waits);
        if !p.waits[to.id()].open {
            lemma_left_in_line(after_waiter(p), spare);
        } else if spare is Some || next_idle(p.shared) is Some {
            let (taken, guard) = if spare is Some {
                (p, spare->0)
            } else {
                (with_shared(p, after_acquire(p.shared)), next_idle(p.shared)->0)
            };
            let q = after_waiter(after_serve(taken, to, guard));
            let left = if arrives(p.waits[to.id()]) {
                None
            } else {
                Some(guard)
            };
            assert(goods.drop_first() =~= supply(q.shared, None));
            lemma_handed(p, q, guard, goods, left);
            lemma_left_in_line(q, left);
            assert(served(p, spare) == served(q, left));
            if arrives(p.waits[to.id()]) && goods.len() < line.len() {
                assert(line.drop_first().skip(goods.len() - 1) =~= line.skip(goods.len() as int));
            }
        } else {
            assert(goods.len() == 0);
            let q = with_shared(p, after_acquire(p.shared));
            assert(line.skip(0) =~= line);
        }
    }
}

/// In a round in which no timer expires, the resources that were returned go to those
/// who wait: the one that was returned first to the one who came first, and so on, to
/// as many as there are resources, each as it was returned. Everybody else stays in
/// line.
pub proof fn law_each_in_line_gets_one<T, W, R: Fn(T, ResourceInfo) -> (T, bool)>(
    p: PoolView<T, W>,
    hook: Option<R>,
    now: u128,
    post: PoolView<T, W>,
    rest: Rest,
    i: int,
)
    requires
        pool_inv(p),
        forall|j: int| 0 <= j < p.mgr.timers.len() ==> (#[trigger] p.mgr.timers[j]).0 >= now,
        each_its_own(p.mgr.waiters + incoming(p.registers, p.waits), p.waits),
        round(p, hook, now, post, rest),
    ensures
        ({
            let all = p.mgr.waiters + incoming(p.registers, p.waits);
            let line = reachable(all, p.waits);
            let goods = offered(p.shared.idle, p.shared.cells);
            &&& 0 <= i < line.len() && i < goods.len() ==> got(post, line[i], goods[i])
            &&& goods.len() <= i < line.len() && rest is Wait ==> post.waits[line[i].id()]
                == p.waits[line[i].id()]
            &&& rest is Wait ==> reachable(post.mgr.waiters, post.waits) == (if goods.len()
                < line.len() {
                line.skip(goods.len() as int)
            } else {
                Seq::empty()
            })
            &&& rest is Wait ==> p.shared.waiter_count - post.shared.waiter_count == all.len()
                - post.mgr.waiters.len()
        }),
{
    let (on_time, after) = lemma_parts(p, hook, now, post, rest);
    let entries = expired(p.mgr.timers, now);
    law_split(p.mgr.timers, now);
    if entries.len() > 0 {
        assert(entries[0].0 < now);
        assert(entries[0] == p.mgr.timers[0]);
    }
    assert(remaining(p.mgr.timers, now) =~= p.mgr.timers);
    assert(on_time == p);
    lemma_told(p, hook, now, on_time, 0);
    let told = after_inbox(after_news(p));
    let line = reachable(told.mgr.waiters, p.waits);
    let goods = offered(p.shared.idle, p.shared.cells);
    lemma_waiters_served(told, hook, now, after);
    lemma_members(told.mgr.waiters, told.waits);
    assert(told.shared.waiter_count >= told.mgr.waiters.len()) by {
        lemma_incoming_len(p.registers, p.waits);
    }
    lemma_left_in_line(told, None);
    lemma_all_served(told, None);
    let gate = told.mgr.waiters.len() > 0 && (told.shared.idle.len() > 0 || can_create(
        told.shared,
    ));
    if !gate {
        assert(line.len() == 0 || goods.len() == 0);
        assert(line.skip(0) =~= line);
    }
    if gate && served(told, None).1 is Some {
        lemma_released(
            served(told, None).0.shared,
            hook,
            served(told, None).1->0,
            now,
            after.shared,
        );
    }
    assert(after.shared.waiter_count - told.shared.waiter_count == after.mgr.waiters.len()
        - told.mgr.waiters.len());
    lemma_evicted(after.shared, after.mgr.repo);
    if after.waits.len() > 0 {
        lemma_round_end(after, 0);
    }
    assert(rest is Wait ==> post.waits == after.waits && post.mgr.waiters == after.mgr.waiters
        && post.shared.waiter_count == after.shared.waiter_count);
    if 0 <= i < line.len() {
        lemma_shared_out(told, None, i);
        assert(told.mgr.waiters.contains(line[i]));
        let j = choose|j: int| 0 <= j < told.mgr.waiters.len() && told.mgr.waiters[j] == line[i];
        assert(0 <= told.mgr.waiters[j].id() < told.waits.len());
        if i < goods.len() {
            assert(gate);
            lemma_round_end(after, line[i].id());
        }
    }
}

proof fn lemma_released<T, R: Fn(T, ResourceInfo) -> (T, bool)>(
    s: SharedView<T>,
    hook: Option<R>,
    guard: Access<T>,
    now: u128,
    post: SharedView<T>,
)
    requires
        released(s, hook, guard, now, post),
    ensures
        post.waiter_count == s.waiter_count,
        post.min_count == s.min_count,
{
    let back = returned(guard, now);
    if may_keep(s, back) {
        let result = choose|result: (T, bool)| #[trigger]
            hook_says(hook, back.value->0, back.info, result) && post == after_return(
                s,
                GuardView { value: Some(result.0), ..back },
                result.1,
                now,
            );
        assert(post == after_return(
            s,
            GuardView { value: Some(result.0), ..back },
            result.1,
            now,
        ));
    }
}

proof fn lemma_incoming_len<T, W>(registers: Seq<Register>, waits: Seq<WaitView<Resolve<T>, W>>)
    ensures
        incoming(registers, waits).len() <= waiting_registers(registers),
    decreases registers.len(),
{
    if registers.len() > 0 {
        lemma_incoming_len(registers.drop_last(), waits);
    }
}

/// Nobody is called off early: whoever still waits, and whose time is not over, is in a
/// round either sent a resource or left waiting, unless the pool is emptied for good.
pub proof fn law_nobody_is_called_off_early<T, W, R: Fn(T, ResourceInfo) -> (T, bool)>(
    p: PoolView<T, W>,
    hook: Option<R>,
    now: u128,
    post: PoolView<T, W>,
    rest: Rest,
    id: int,
)
    requires
        pool_inv(p),
        0 <= id < p.waits.len(),
        wait_inv(p.waits[id]),
        arrives(p.waits[id]),
        forall|i: int|
            0 <= i < p.mgr.timers.len() ==> ((#[trigger] p.mgr.timers[i]).0 >= now || !(
            p.mgr.timers[i].2 matches Timer::Waiter(to) && to.id() == id)),
        round(p, hook, now, post, rest),
        rest is Wait,
    ensures
        post.waits[id] == p.waits[id] || (attempt(post.waits[id].shot, true) matches Attempt::Ready(
            Ok(ResourceResolve::Resource(Some(guard))),
        ) && guard@.value is Some),
{
    let (on_time, after) = lemma_parts(p, hook, now, post, rest);
    assert forall|i: int|
        0 <= i < p.mgr.timers.len() && (#[trigger] p.mgr.timers[i]).0 < now implies !calls_off(
        p.mgr.timers[i].2,
        id,
    ) by {
    }
    lemma_told(p, hook, now, on_time, id);
    let told = after_inbox(after_news(on_time));
    lemma_waiters_served(told, hook, now, after);
    lemma_sent_or_left(told, None, id);
    lemma_round_end(after, id);
}

proof fn lemma_sent_or_left<T, W>(p: PoolView<T, W>, spare: Option<Access<T>>, id: int)
    requires
        in_range(p.mgr.waiters, p.waits.len()),
        0 <= id < p.waits.len(),
        wait_inv(p.waits[id]),
        arrives(p.waits[id]),
        spare is Some ==> spare->0.value is Some,
    ensures
        ({
            let post = served(p, spare).0;
            post.waits[id] == p.waits[id] || (attempt(post.waits[id].shot, true)
                matches Attempt::Ready(Ok(ResourceResolve::Resource(Some(guard))))
                && guard@.value is Some)
        }),
    decreases p.mgr.waiters.len(),
{
    if p.mgr.waiters.len() > 0 {
        let to = p.mgr.waiters[0];
        let tail = p.mgr.waiters.drop_first();
        assert forall|i: int| 0 <= i < tail.len() implies 0 <= (#[trigger] tail[i]).id()
            < p.waits.len() by {
            assert(tail[i] == p.mgr.waiters[i + 1]);
        }
        lemma_live_idle(p.shared.idle, p.shared.cells);
        if !p.waits[to.id()].open {
            lemma_sent_or_left(after_waiter(p), spare, id);
        } else if spare is Some || next_idle(p.shared) is Some {
            let (taken, guard) = if spare is Some {
                (p, spare->0)
            } else {
                (with_shared(p, after_acquire(p.shared)), next_idle(p.shared)->0)
            };
            let left = if arrives(p.waits[to.id()]) {
                None
            } else {
                Some(guard)
            };
            let q = after_waiter(after_serve(taken, to, guard));
            assert(served(p, spare) == served(q, left));
            if to.id() == id {
                lemma_got(taken, to, guard);
                lemma_closed(q, left, id);
            } else {
                lemma_sent_or_left(q, left, id);
            }
        }
    }
}

/// A round does not take the number of resources below the minimum, in a pool that
/// verifies, is not being emptied, and whose resources may all be used again.
pub proof fn law_round_leaves_the_minimum<T, W, R: Fn(T, ResourceInfo) -> (T, bool)>(
    p: PoolView<T, W>,
    hook: Option<R>,
    now: u128,
    post: PoolView<T, W>,
    rest: Rest,
)
    requires
        pool_inv(p),
        p.verify,
        p.state is Active,
        forall|i: int| 0 <= i < p.registers.len() ==> #[trigger] p.registers[i] is Waiter,
        all_good(p.shared.cells),
        agrees(hook),
        p.shared.cells.len() + p.mgr.timers.len() <= usize::MAX,
        round(p, hook, now, post, rest),
    ensures
        p.shared.count >= p.shared.min_count ==> post.shared.count >= p.shared.min_count,
        p.shared.count < p.shared.min_count ==> post.shared.count == p.shared.count,
{
    let (on_time, after) = lemma_parts(p, hook, now, post, rest);
    let start = with_mgr(p, ManagerView { timers: remaining(p.mgr.timers, now), ..p.mgr });
    let entries = expired(p.mgr.timers, now);
    law_split(p.mgr.timers, now);
    assert forall|i: int| 0 <= i < entries.len() implies timer_known(
        start,
        (#[trigger] entries[i]).2,
    ) by {
        assert(entries[i] == p.mgr.timers[i]);
        assert(timer_known(p, p.mgr.timers[i].2));
    }
    law_timers_leave_the_minimum(start, hook, entries, now, on_time);
    lemma_told(p, hook, now, on_time, 0);
    let told = after_inbox(after_news(on_time));
    lemma_all_served(told, None);
    lemma_spare_is_good(told, None);
    let (fed, spare) = served(told, None);
    if told.mgr.waiters.len() > 0 && (told.shared.idle.len() > 0 || can_create(told.shared)) {
        if spare is Some {
            law_good_resource_is_kept(fed.shared, hook, spare->0, now, after.shared);
        }
    }
    assert(after.shared.count == on_time.shared.count);
    assert(after.state is Active);
}

proof fn lemma_spare_is_good<T, W>(p: PoolView<T, W>, spare: Option<Access<T>>)
    requires
        shared_inv(p.shared),
        all_good(p.shared.cells),
        spare is Some ==> known(p.shared.cells, spare->0.lock) && spare->0.value is Some
            && spare->0.info.reusable && !spare->0.info.expired,
    ensures
        ({
            let (post, left) = served(p, spare);
            left is Some ==> known(post.shared.cells, left->0.lock) && left->0.value is Some
                && left->0.info.reusable && !left->0.info.expired
        }),
    decreases p.mgr.waiters.len(),
{
    if p.mgr.waiters.len() > 0 {
        let to = p.mgr.waiters[0];
        let live = live_idle(p.shared.idle, p.shared.cells);
        lemma_live_idle(p.shared.idle, p.shared.cells);
        assert forall|i: int| 0 <= i < live.len() implies known(p.shared.cells, #[trigger] live[i]) by {
            assert(live[i] == p.shared.idle[i + p.shared.idle.len() - live.len()]);
        }
        if !p.waits[to.id()].open {
            lemma_spare_is_good(after_waiter(p), spare);
        } else if spare is Some {
            lemma_spare_is_good(
                after_waiter(after_serve(p, to, spare->0)),
                if arrives(p.waits[to.id()]) {
                    None
                } else {
                    spare
                },
            );
        } else if next_idle(p.shared) is Some {
            let q = with_shared(p, after_acquire(p.shared));
            assert(known(p.shared.cells, live[0]));
            assert(all_good(q.shared.cells));
            lemma_spare_is_good(
                after_waiter(after_serve(q, to, next_idle(p.shared)->0)),
                if arrives(p.waits[to.id()]) {
                    None
                } else {
                    next_idle(p.shared)
                },
            );
        }
    }
}

/// What serving those who wait does not touch.
pub proof fn lemma_served_mgr<T, W>(p: PoolView<T, W>, spare: Option<Access<T>>)
    ensures
        ({
            let post = served(p, spare).0;
            &&& post.mgr == (ManagerView { waiters: post.mgr.waiters, ..p.mgr })
            &&& post.drains == p.drains
            &&& post.state == p.state
            &&& post.handles == p.handles
        }),
    decreases p.mgr.waiters.len(),
{
    if p.mgr.waiters.len() > 0 {
        let to = p.mgr.waiters[0];
        let left = if arrives(p.waits[to.id()]) {
            None
        } else if spare is Some {
            spare
        } else {
            next_idle(p.shared)
        };
        if !p.waits[to.id()].open {
            lemma_served_mgr(after_waiter(p), spare);
        } else if spare is Some {
            lemma_served_mgr(after_waiter(after_serve(p, to, spare->0)), left);
        } else if next_idle(p.shared) is Some {
            let q = with_shared(p, after_acquire(p.shared));
            lemma_served_mgr(after_waiter(after_serve(q, to, next_idle(p.shared)->0)), left);
        }
    }
}

/// The pool when the manager turns to those who wait.
pub proof fn lemma_told_range<T, W, R: Fn(T, ResourceInfo) -> (T, bool)>(
    p: PoolView<T, W>,
    hook: Option<R>,
    now: u128,
    on_time: PoolView<T, W>,
) -> (told: PoolView<T, W>)
    requires
        pool_inv(p),
        pool_inv(on_time),
        expiry(p, hook, now, on_time),
    ensures
        told == after_inbox(after_news(on_time)),
        in_range(told.mgr.waiters, told.waits.len()),
        told.waits.len() == p.waits.len(),
        told.mgr.waiters == p.mgr.waiters + incoming(p.registers, on_time.waits),
{
    lemma_told(p, hook, now, on_time, 0);
    after_inbox(after_news(on_time))
}

/// The states in the middle of a round.
pub proof fn lemma_parts<T, W, R: Fn(T, ResourceInfo) -> (T, bool)>(
    p: PoolView<T, W>,
    hook: Option<R>,
    now: u128,
    post: PoolView<T, W>,
    rest: Rest,
) -> (r: (PoolView<T, W>, PoolView<T, W>))
    requires
        round(p, hook, now, post, rest),
    ensures
        expiry(p, hook, now, r.0),
        waiters_served(after_inbox(after_news(r.0)), hook, now, r.1),
        pool_inv(r.0),
        pool_inv(r.1),
        post == after_round(r.1),
        rest == rest_after(r.1),
{
    choose|on_time: PoolView<T, W>, after: PoolView<T, W>| #[trigger]
        expiry(p, hook, now, on_time) && #[trigger] waiters_served(
            after_inbox(after_news(on_time)),
            hook,
            now,
            after,
        ) && pool_inv(on_time) && pool_inv(after) && post == after_round(after) && rest
            == rest_after(after)
}

/// Check that a resource is there for the next user.
pub open spec fn at_hand<I, T>(
    idle: Seq<ResourceLock>,
    cells: Seq<Cell<I, T>>,
    lock: ResourceLock,
) -> bool {
    ready(cells, lock) && idle.contains(lock)
}

/// Check that the resource of a lock was sent to the one who waits under a number.
pub open spec fn was_sent<I, T, W>(
    waits: Seq<WaitView<ResourceResolve<I, T>, W>>,
    id: int,
    lock: ResourceLock,
) -> bool {
    &&& 0 <= id < waits.len()
    &&& !waits[id].open
    &&& attempt(waits[id].shot, true) matches Attempt::Ready(
        Ok(ResourceResolve::Resource(Some(guard))),
    ) && guard@.lock == lock && guard@.value is Some
}

/// What has something to offer stays at hand when what has not is dropped.
pub proof fn lemma_live_keeps<I, T>(
    idle: Seq<ResourceLock>,
    cells: Seq<Cell<I, T>>,
    lock: ResourceLock,
)
    requires
        at_hand(idle, cells, lock),
    ensures
        live_idle(idle, cells).contains(lock),
    decreases idle.len(),
{
    let i = choose|i: int| 0 <= i < idle.len() && idle[i] == lock;
    if !ready(cells, idle[0]) {
        assert(idle.drop_first()[i - 1] == lock);
        lemma_live_keeps(idle.drop_first(), cells, lock);
    } else {
        assert(live_idle(idle, cells) == idle);
    }
}

proof fn lemma_conserved<T, W>(p: PoolView<T, W>, spare: Option<Access<T>>, lock: ResourceLock)
    requires
        in_range(p.mgr.waiters, p.waits.len()),
        forall|i: int|
            0 <= i < p.mgr.waiters.len() ==> wait_inv(
                p.waits[(#[trigger] p.mgr.waiters[i]).id()],
            ),
        shared_inv(p.shared),
        known(p.shared.cells, lock),
        at_hand(p.shared.idle, p.shared.cells, lock) || (spare is Some && spare->0.lock == lock),
        spare is Some ==> spare->0.value is Some && known(p.shared.cells, spare->0.lock),
    ensures
        ({
            let (post, left) = served(p, spare);
            &&& at_hand(post.shared.idle, post.shared.cells, lock) || (left is Some
                && left->0.lock == lock) || exists|id: int| #[trigger]
                was_sent(post.waits, id, lock)
            &&& post.shared.cells.len() == p.shared.cells.len()
            &&& left is Some ==> left->0.value is Some && known(
                post.shared.cells,
                left->0.lock,
            )
        }),
    decreases p.mgr.waiters.len(),
{
    if p.mgr.waiters.len() > 0 {
        let to = p.mgr.waiters[0];
        let tail = p.mgr.waiters.drop_first();
        assert forall|i: int| 0 <= i < tail.len() implies 0 <= (#[trigger] tail[i]).id()
            < p.waits.len() && wait_inv(p.waits[tail[i].id()]) by {
            assert(tail[i] == p.mgr.waiters[i + 1]);
        }
        let live = live_idle(p.shared.idle, p.shared.cells);
        lemma_live_idle(p.shared.idle, p.shared.cells);
        assert forall|i: int| 0 <= i < live.len() implies known(p.shared.cells, #[trigger] live[i]) by {
            assert(live[i] == p.shared.idle[i + p.shared.idle.len() - live.len()]);
        }
        if at_hand(p.shared.idle, p.shared.cells, lock) {
            lemma_live_keeps(p.shared.idle, p.shared.cells, lock);
            let j = choose|j: int| 0 <= j < live.len() && live[j] == lock;
            if j > 0 {
                assert(live.drop_first()[j - 1] == lock);
            }
        }
        if !p.waits[to.id()].open {
            lemma_conserved(after_waiter(p), spare, lock);
        } else if spare is Some || next_idle(p.shared) is Some {
            let (taken, guard) = if spare is Some {
                (p, spare->0)
            } else {
                (with_shared(p, after_acquire(p.shared)), next_idle(p.shared)->0)
            };
            let left = if arrives(p.waits[to.id()]) {
                None
            } else {
                Some(guard)
            };
            let q = after_waiter(after_serve(taken, to, guard));
            assert(served(p, spare) == served(q, left));
            assert(shared_inv(q.shared));
            if spare is None {
                assert(known(p.shared.cells, live[0]));
                assert(guard.lock == live[0]);
            }
            if arrives(p.waits[to.id()]) && guard.lock == lock && !at_hand(
                q.shared.idle,
                q.shared.cells,
                lock,
            ) {
                lemma_got(taken, to, guard);
                lemma_closed(q, left, to.id());
                lemma_cells(q, left);
                assert(was_sent(served(q, left).0.waits, to.id(), lock));
            } else {
                assert forall|i: int| 0 <= i < q.mgr.waiters.len() implies wait_inv(
                    q.waits[(#[trigger] q.mgr.waiters[i]).id()],
                ) by {
                    let id = q.mgr.waiters[i].id();
                    if id == to.id() {
                        assert(wait_inv(p.waits[id]));
                    }
                }
                lemma_conserved(q, left, lock);
            }
        } else {
            assert(served(p, spare).0.shared.cells == p.shared.cells);
        }
    }
}

proof fn lemma_cells<T, W>(p: PoolView<T, W>, spare: Option<Access<T>>)
    requires
        shared_inv(p.shared),
        spare is Some ==> spare->0.value is Some && known(p.shared.cells, spare->0.lock),
    ensures
        ({
            let (post, left) = served(p, spare);
            &&& post.shared.cells.len() == p.shared.cells.len()
            &&& left is Some ==> left->0.value is Some && known(
                post.shared.cells,
                left->0.lock,
            )
        }),
    decreases p.mgr.waiters.len(),
{
    if p.mgr.waiters.len() > 0 {
        let to = p.mgr.waiters[0];
        let live = live_idle(p.shared.idle, p.shared.cells);
        lemma_live_idle(p.shared.idle, p.shared.cells);
        assert forall|i: int| 0 <= i < live.len() implies known(p.shared.cells, #[trigger] live[i]) by {
            assert(live[i] == p.shared.idle[i + p.shared.idle.len() - live.len()]);
        }
        if !p.waits[to.id()].open {
            lemma_cells(after_waiter(p), spare);
        } else if spare is Some || next_idle(p.shared) is Some {
            let (taken, guard) = if spare is Some {
                (p, spare->0)
            } else {
                (with_shared(p, after_acquire(p.shared)), next_idle(p.shared)->0)
            };
            let left = if arrives(p.waits[to.id()]) {
                None
            } else {
                Some(guard)
            };
            let q = after_waiter(after_serve(taken, to, guard));
            if spare is None {
                assert(known(p.shared.cells, live[0]));
            }
            assert(shared_inv(q.shared));
            assert(served(p, spare) == served(q, left));
            lemma_cells(q, left);
        }
    }
}

/// No resource is lost when those who wait are served: one that was at hand still is, is
/// on its way to somebody who waits, or was disposed of because a hook objects or because
/// it is not to be used again.
pub proof fn law_no_resource_is_lost<T, W, R: Fn(T, ResourceInfo) -> (T, bool)>(
    p: PoolView<T, W>,
    hook: Option<R>,
    now: u128,
    post: PoolView<T, W>,
    lock: ResourceLock,
)
    requires
        pool_inv(p),
        forall|i: int|
            0 <= i < p.mgr.waiters.len() ==> wait_inv(
                p.waits[(#[trigger] p.mgr.waiters[i]).id()],
            ),
        known(p.shared.cells, lock),
        at_hand(p.shared.idle, p.shared.cells, lock),
        waiters_served(p, hook, now, post),
    ensures
        at_hand(post.shared.idle, post.shared.cells, lock) || vacant(post.shared.cells, lock)
            || exists|id: int| #[trigger] was_sent(post.waits, id, lock),
{
    assert forall|i: int| 0 <= i < p.mgr.waiters.len() implies 0 <= (
    #[trigger] p.mgr.waiters[i]).id() < p.waits.len() by {
        assert(awaited(p.waits, p.mgr.waiters[i]));
    }
    lemma_conserved(p, None, lock);
    let (fed, spare) = served(p, None);
    if p.mgr.waiters.len() > 0 && (p.shared.idle.len() > 0 || can_create(p.shared)) {
        if spare is Some {
            lemma_put_back(fed.shared, hook, spare->0, now, post.shared, lock);
        }
        if exists|id: int| #[trigger] was_sent(fed.waits, id, lock) {
            let id = choose|id: int| #[trigger] was_sent(fed.waits, id, lock);
            assert(was_sent(post.waits, id, lock));
        }
    }
}

proof fn lemma_put_back<T, R: Fn(T, ResourceInfo) -> (T, bool)>(
    s: SharedView<T>,
    hook: Option<R>,
    guard: Access<T>,
    now: u128,
    post: SharedView<T>,
    lock: ResourceLock,
)
    requires
        known(s.cells, guard.lock),
        known(s.cells, lock),
        guard.value is Some,
        released(s, hook, guard, now, post),
    ensures
        guard.lock == lock || at_hand(s.idle, s.cells, lock) ==> at_hand(
            post.idle,
            post.cells,
            lock,
        ) || vacant(post.cells, lock),
{
    let back = returned(guard, now);
    if may_keep(s, back) {
        let result = choose|result: (T, bool)| #[trigger]
            hook_says(hook, back.value->0, back.info, result) && post == after_return(
                s,
                GuardView { value: Some(result.0), ..back },
                result.1,
                now,
            );
        assert(post == after_return(
            s,
            GuardView { value: Some(result.0), ..back },
            result.1,
            now,
        ));
    }
    if post.idle != s.idle {
        assert(post.idle == s.idle.push(guard.lock));
        assert(post.idle[s.idle.len() as int] == guard.lock);
        if s.idle.contains(lock) {
            let i = choose|i: int| 0 <= i < s.idle.len() && s.idle[i] == lock;
            assert(post.idle[i] == lock);
        }
    }
}

} // verus!
