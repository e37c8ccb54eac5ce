//! A resource that is passed on from one who waits to the next.

use vstd::prelude::*;

use crate::dropshot::{attempt, Attempt};
use crate::pool::model::{
    after_events, after_inbox, after_news, after_round, after_serve, after_waiter, expiry,
    lemma_live_idle, pool_inv, rest_after, round, served, waiters_served, with_shared, Access,
    ManagerView, PoolView, Register, Resolve, Rest,
};
use crate::resource::info::ResourceInfo;
use crate::resource::lock::{
    after_lock, held, known, ready, GuardView, ResourceGuard, ResourceLock,
};
use crate::resource::operation::ResourceResolve;
use crate::shared::{
    after_acquire, after_keep, after_return, guard_at, hook_says, live_idle, may_keep, next_idle,
    released, returned, shared_inv, SharedEvent, SharedView,
};
use crate::timers::{expired, remaining};
use crate::wait::{after_leave, after_reply, arrives, wait_inv, WaitResponder, WaitView};

verus! {

broadcast use {
    ResourceLock::lemma_at,
    ResourceLock::lemma_same,
    ResourceGuard::lemma_of,
    ResourceGuard::lemma_view,
};

/// Check that nothing that was returned can be handed out.
pub open spec fn nothing_idle<T>(s: SharedView<T>) -> bool {
    forall|i: int| 0 <= i < s.idle.len() ==> !ready(s.cells, #[trigger] s.idle[i])
}

/// Check that nothing but a lock that was returned can be handed out.
pub open spec fn only_idle<T>(s: SharedView<T>, lock: ResourceLock) -> bool {
    &&& known(s.cells, lock)
    &&& ready(s.cells, lock)
    &&& s.idle.contains(lock)
    &&& forall|i: int|
        0 <= i < s.idle.len() && ready(s.cells, #[trigger] s.idle[i]) ==> s.idle[i] == lock
}

/// Check that the manager of a pool that is in use has nothing to do but to serve
/// those who wait, and never verifies a resource.
pub open spec fn quiet<T, W>(p: PoolView<T, W>) -> bool {
    &&& p.state is Active
    &&& p.registers.len() == 0
    &&& p.mgr.timers.len() == 0
    &&& p.shared.idle_timeout is None
    &&& forall|i: int| 0 <= i < p.shared.events.len() ==> #[trigger] p.shared.events[i] is Created
}

/// Check that those whom the manager knows have a reply each of their own. Some may
/// have been called off, or may have left.
pub open spec fn lined_up<T, W>(p: PoolView<T, W>) -> bool {
    &&& p.shared.waiter_count >= p.mgr.waiters.len()
    &&& forall|i: int|
        0 <= i < p.mgr.waiters.len() ==> {
            let to = #[trigger] p.mgr.waiters[i];
            0 <= to.id() < p.waits.len() && wait_inv(p.waits[to.id()])
        }
    &&& forall|i: int, j: int|
        0 <= i < j < p.mgr.waiters.len() ==> (#[trigger] p.mgr.waiters[i]).id() != (
        #[trigger] p.mgr.waiters[j]).id()
}

/// Those of a number of waiters whom a reply reaches, in the order in which they
/// came.
pub open spec fn reachable<X, W>(
    waiters: Seq<WaitResponder>,
    waits: Seq<WaitView<X, W>>,
) -> Seq<WaitResponder>
    decreases waiters.len(),
{
    if waiters.len() == 0 {
        waiters
    } else if arrives(waits[waiters[0].id()]) {
        seq![waiters[0]] + reachable(waiters.drop_first(), waits)
    } else {
        reachable(waiters.drop_first(), waits)
    }
}

/// Those who wait for a resource, in the order in which they came. Who has left, or
/// was called off, is not among them.
pub open spec fn line<T, W>(p: PoolView<T, W>) -> Seq<WaitResponder> {
    reachable(p.mgr.waiters, p.waits)
}

/// Check that some wait for the resource of a lock, which is in use, and nothing
/// else is there to be handed out.
pub open spec fn in_line<T, W>(p: PoolView<T, W>, lock: ResourceLock) -> bool {
    &&& shared_inv(p.shared)
    &&& held(p.shared.cells, lock)
    &&& nothing_idle(p.shared)
    &&& quiet(p)
    &&& lined_up(p)
}

/// Check that a hook keeps every resource.
pub open spec fn keeps<T, R: Fn(T, ResourceInfo) -> (T, bool)>(hook: Option<R>) -> bool {
    forall|value: T, info: ResourceInfo, result: (T, bool)| #[trigger]
        hook_says(hook, value, info, result) ==> result.1
}

/// Check that a resource is there and good for another.
pub open spec fn good<T>(guard: Access<T>, lock: ResourceLock) -> bool {
    guard.lock == lock && guard.value is Some && !guard.info.expired
}

/// Check that two states of a pool differ only in what those have to look after
/// whom the manager has already served.
pub open spec fn looked<T, W>(p: PoolView<T, W>, q: PoolView<T, W>) -> bool {
    &&& q == (PoolView {
        waits: q.waits,
        woken: q.woken,
        shared: SharedView { notified: q.shared.notified, ..p.shared },
        ..p
    })
    &&& q.waits.len() == p.waits.len()
    &&& forall|i: int|
        0 <= i < p.mgr.waiters.len() ==> q.waits[(#[trigger] p.mgr.waiters[i]).id()]
            == p.waits[p.mgr.waiters[i].id()]
}

/// Check that it leads from one state of a pool to another when a resource is
/// returned and the manager does a round.
pub open spec fn turn<T, W, R: Fn(T, ResourceInfo) -> (T, bool)>(
    p: PoolView<T, W>,
    hook: Option<R>,
    guard: Access<T>,
    now: u128,
    post: PoolView<T, W>,
) -> bool {
    exists|q: PoolView<T, W>, back: SharedView<T>, rest: Rest| #[trigger]
        looked(p, q) && #[trigger] released(q.shared, hook, guard, now, back) && #[trigger] round(
            with_shared(q, back),
            hook,
            now,
            post,
            rest,
        )
}

/// Check that turns, one after the other, lead from one state of a pool to another.
pub open spec fn turns_taken<T, W, R: Fn(T, ResourceInfo) -> (T, bool)>(
    p: PoolView<T, W>,
    hook: Option<R>,
    turns: Seq<(Access<T>, u128)>,
    post: PoolView<T, W>,
) -> bool
    decreases turns.len(),
{
    if turns.len() == 0 {
        post == p
    } else {
        exists|mid: PoolView<T, W>|
            turns_taken(p, hook, turns.drop_last(), mid) && #[trigger] turn(
                mid,
                hook,
                turns.last().0,
                turns.last().1,
                post,
            )
    }
}

/// Check that somebody was sent the resource of a lock.
pub open spec fn was_sent<T, W>(
    p: PoolView<T, W>,
    to: WaitResponder,
    lock: ResourceLock,
    value: Option<T>,
) -> bool {
    attempt(p.waits[to.id()].shot, true) matches Attempt::Ready(
        Ok(ResourceResolve::Resource(Some(guard))),
    ) && guard@.lock == lock && guard@.value == value
}

proof fn lemma_nothing_idle<T>(s: SharedView<T>)
    requires
        nothing_idle(s),
    ensures
        live_idle(s.idle, s.cells).len() == 0,
    decreases s.idle.len(),
{
    if s.idle.len() > 0 {
        assert(!ready(s.cells, s.idle[0]));
        let rest = SharedView { idle: s.idle.drop_first(), ..s };
        assert forall|i: int| 0 <= i < rest.idle.len() implies !ready(
            rest.cells,
            #[trigger] rest.idle[i],
        ) by {
            assert(rest.idle[i] == s.idle[i + 1]);
        }
        lemma_nothing_idle(rest);
    }
}

proof fn lemma_only_idle<T>(s: SharedView<T>, lock: ResourceLock)
    requires
        only_idle(s, lock),
    ensures
        live_idle(s.idle, s.cells).len() > 0,
        live_idle(s.idle, s.cells)[0] == lock,
    decreases s.idle.len(),
{
    if s.idle.len() > 0 && !ready(s.cells, s.idle[0]) {
        let rest = SharedView { idle: s.idle.drop_first(), ..s };
        let at = choose|at: int| 0 <= at < s.idle.len() && s.idle[at] == lock;
        assert(rest.idle[at - 1] == lock);
        assert forall|i: int|
            0 <= i < rest.idle.len() && ready(rest.cells, #[trigger] rest.idle[i]) implies
            rest.idle[i] == lock by {
            assert(rest.idle[i] == s.idle[i + 1]);
        }
        lemma_only_idle(rest, lock);
    }
}

proof fn lemma_back<T, R: Fn(T, ResourceInfo) -> (T, bool)>(
    s: SharedView<T>,
    hook: Option<R>,
    guard: Access<T>,
    now: u128,
    post: SharedView<T>,
)
    requires
        shared_inv(s),
        held(s.cells, guard.lock),
        nothing_idle(s),
        s.waiter_count > 0,
        s.idle_timeout is None,
        keeps(hook),
        guard.value is Some,
        !guard.info.expired,
        released(s, hook, guard, now, post),
    ensures
        shared_inv(post),
        only_idle(post, guard.lock),
        guard_at(post.cells, guard.lock).lock == guard.lock,
        hook is None ==> guard_at(post.cells, guard.lock).value == guard.value,
        post == (SharedView {
            cells: post.cells,
            idle: post.idle,
            notified: true,
            ..s
        }),
        post.cells.len() == s.cells.len(),
{
    let back = returned(guard, now);
    assert(may_keep(s, back));
    let result = choose|result: (T, bool)| #[trigger]
        hook_says(hook, back.value->0, back.info, result) && post == after_return(
            s,
            GuardView { value: Some(result.0), ..back },
            result.1,
            now,
        );
    let changed = GuardView { value: Some(result.0), ..back };
    assert(result.1);
    assert(post == after_keep(s, changed, now));
    assert(post.idle[post.idle.len() - 1] == guard.lock);
    assert forall|i: int| 0 <= i < post.idle.len() && ready(post.cells, #[trigger] post.idle[i])
        implies post.idle[i] == guard.lock by {
        if i < s.idle.len() {
            assert(post.idle[i] == s.idle[i]);
            assert(!ready(s.cells, s.idle[i]));
            if s.idle[i] != guard.lock {
                assert(post.cells[s.idle[i].id()] == s.cells[s.idle[i].id()]);
            }
        }
    }
    assert forall|i: int| 0 <= i < post.idle.len() implies known(
        post.cells,
        #[trigger] post.idle[i],
    ) by {
        if i < s.idle.len() {
            assert(post.idle[i] == s.idle[i]);
        }
    }
}

proof fn lemma_acquired<T>(s: SharedView<T>, lock: ResourceLock)
    requires
        shared_inv(s),
        only_idle(s, lock),
    ensures
        next_idle(s) == Some(guard_at(s.cells, lock)),
        ({
            let after = after_acquire(s);
            &&& after == (SharedView {
                cells: after_lock(s.cells, lock),
                idle: after.idle,
                ..s
            })
            &&& nothing_idle(after)
            &&& shared_inv(after)
        }),
{
    lemma_only_idle(s, lock);
    lemma_live_idle(s.idle, s.cells);
    let live = live_idle(s.idle, s.cells);
    let after = after_acquire(s);
    assert forall|i: int| 0 <= i < after.idle.len() implies !ready(
        after.cells,
        #[trigger] after.idle[i],
    ) && known(after.cells, after.idle[i]) by {
        let at = i + 1 + s.idle.len() - live.len();
        assert(after.idle[i] == live[i + 1]);
        assert(live[i + 1] == s.idle[at]);
        assert(known(s.cells, s.idle[at]));
        if s.idle[at] != lock {
            assert(after.cells[s.idle[at].id()] == s.cells[s.idle[at].id()]);
        }
    }
}

proof fn lemma_reachable<T, W>(
    waiters: Seq<WaitResponder>,
    waits: Seq<WaitView<Resolve<T>, W>>,
    others: Seq<WaitView<Resolve<T>, W>>,
)
    requires
        forall|i: int|
            0 <= i < waiters.len() ==> others[(#[trigger] waiters[i]).id()]
                == waits[waiters[i].id()],
    ensures
        reachable(waiters, others) == reachable(waiters, waits),
    decreases waiters.len(),
{
    if waiters.len() > 0 {
        assert(others[waiters[0].id()] == waits[waiters[0].id()]);
        let rest = waiters.drop_first();
        assert forall|i: int| 0 <= i < rest.len() implies others[(#[trigger] rest[i]).id()]
            == waits[rest[i].id()] by {
            assert(rest[i] == waiters[i + 1]);
        }
        lemma_reachable(rest, waits, others);
    }
}

/// What is left of a pool when the first of those whom the manager knows is done
/// with, whether or not there was a reply.
proof fn lemma_next<T, W>(p: PoolView<T, W>, q: PoolView<T, W>)
    requires
        lined_up(p),
        p.mgr.waiters.len() > 0,
        q.mgr.waiters == p.mgr.waiters.drop_first(),
        q.shared.waiter_count == p.shared.waiter_count - 1,
        q.waits.len() == p.waits.len(),
        forall|id: int|
            0 <= id < p.waits.len() && id != p.mgr.waiters[0].id() ==> #[trigger] q.waits[id]
                == p.waits[id],
    ensures
        lined_up(q),
        arrives(p.waits[p.mgr.waiters[0].id()]) ==> line(p).len() > 0 && line(p)[0]
            == p.mgr.waiters[0] && line(q) == line(p).drop_first(),
        !arrives(p.waits[p.mgr.waiters[0].id()]) ==> line(q) == line(p),
{
    assert forall|i: int| 0 <= i < q.mgr.waiters.len() implies {
        let next = #[trigger] q.mgr.waiters[i];
        &&& 0 <= next.id() < q.waits.len()
        &&& q.waits[next.id()] == p.waits[next.id()]
        &&& wait_inv(q.waits[next.id()])
    } by {
        assert(q.mgr.waiters[i] == p.mgr.waiters[i + 1]);
        assert(p.mgr.waiters[0].id() != p.mgr.waiters[i + 1].id());
    }
    assert forall|i: int, j: int| 0 <= i < j < q.mgr.waiters.len() implies (
    #[trigger] q.mgr.waiters[i]).id() != (#[trigger] q.mgr.waiters[j]).id() by {
        assert(q.mgr.waiters[i] == p.mgr.waiters[i + 1]);
        assert(q.mgr.waiters[j] == p.mgr.waiters[j + 1]);
    }
    lemma_reachable(q.mgr.waiters, p.waits, q.waits);
    if arrives(p.waits[p.mgr.waiters[0].id()]) {
        assert(line(p).drop_first() =~= line(q));
    }
}

/// Check that serving those who wait changes nothing but who waits, what they are
/// sent, and which resources were returned.
spec fn only_served<T, W>(p: PoolView<T, W>, post: PoolView<T, W>) -> bool {
    &&& post == (PoolView {
        waits: post.waits,
        woken: post.woken,
        mgr: ManagerView { waiters: post.mgr.waiters, ..p.mgr },
        shared: SharedView {
            idle: post.shared.idle,
            cells: post.shared.cells,
            waiter_count: post.shared.waiter_count,
            ..p.shared
        },
        ..p
    })
    &&& post.waits.len() == p.waits.len()
    &&& shared_inv(post.shared)
    &&& nothing_idle(post.shared)
    &&& lined_up(post)
}

/// Check that replies for none but those who wait have changed.
spec fn rest_kept<T, W>(p: PoolView<T, W>, post: PoolView<T, W>, id: int) -> bool {
    (forall|i: int| 0 <= i < p.mgr.waiters.len() ==> (#[trigger] p.mgr.waiters[i]).id() != id)
        ==> post.waits[id] == p.waits[id]
}

proof fn lemma_rest_kept<T, W>(p: PoolView<T, W>, q: PoolView<T, W>, post: PoolView<T, W>, id: int)
    requires
        p.mgr.waiters.len() > 0,
        q.mgr.waiters == p.mgr.waiters.drop_first(),
        id != p.mgr.waiters[0].id() ==> q.waits[id] == p.waits[id],
        rest_kept(q, post, id),
    ensures
        rest_kept(p, post, id),
{
    if forall|i: int| 0 <= i < p.mgr.waiters.len() ==> (#[trigger] p.mgr.waiters[i]).id() != id {
        assert(p.mgr.waiters[0].id() != id);
        assert forall|i: int| 0 <= i < q.mgr.waiters.len() implies (
        #[trigger] q.mgr.waiters[i]).id() != id by {
            assert(q.mgr.waiters[i] == p.mgr.waiters[i + 1]);
        }
    }
}

proof fn lemma_none_served<T, W>(p: PoolView<T, W>, id: int)
    requires
        shared_inv(p.shared),
        nothing_idle(p.shared),
        lined_up(p),
        0 <= id < p.waits.len(),
    ensures
        served(p, None).1 is None,
        only_served(p, served(p, None).0),
        served(p, None).0.shared.cells == p.shared.cells,
        line(served(p, None).0) == line(p),
        rest_kept(p, served(p, None).0, id),
    decreases p.mgr.waiters.len(),
{
    lemma_nothing_idle(p.shared);
    if p.mgr.waiters.len() > 0 {
        if !p.waits[p.mgr.waiters[0].id()].open {
            let q = after_waiter(p);
            lemma_next(p, q);
            lemma_none_served(q, id);
            lemma_rest_kept(p, q, served(p, None).0, id);
        } else {
            let q = with_shared(p, after_acquire(p.shared));
            assert(q.shared.idle.len() == 0);
            lemma_reachable(p.mgr.waiters, p.waits, q.waits);
        }
    }
}

proof fn lemma_spare_served<T, W>(p: PoolView<T, W>, guard: Access<T>, id: int)
    requires
        shared_inv(p.shared),
        nothing_idle(p.shared),
        lined_up(p),
        line(p).len() > 0,
        0 <= id < p.waits.len(),
    ensures
        served(p, Some(guard)).1 is None,
        only_served(p, served(p, Some(guard)).0),
        served(p, Some(guard)).0.shared.cells == p.shared.cells,
        line(served(p, Some(guard)).0) == line(p).drop_first(),
        was_sent(served(p, Some(guard)).0, line(p)[0], guard.lock, guard.value),
        rest_kept(p, served(p, Some(guard)).0, id),
    decreases p.mgr.waiters.len(),
{
    let to = p.mgr.waiters[0];
    if !p.waits[to.id()].open {
        let q = after_waiter(p);
        lemma_next(p, q);
        lemma_spare_served(q, guard, id);
        lemma_rest_kept(p, q, served(p, Some(guard)).0, id);
    } else {
        let q = after_waiter(after_serve(p, to, guard));
        lemma_next(p, q);
        if arrives(p.waits[to.id()]) {
            lemma_sent(p, to, guard);
            lemma_none_served(q, id);
            lemma_none_served(q, to.id());
            assert forall|i: int| 0 <= i < q.mgr.waiters.len() implies (
            #[trigger] q.mgr.waiters[i]).id() != to.id() by {
                assert(q.mgr.waiters[i] == p.mgr.waiters[i + 1]);
                assert(p.mgr.waiters[0].id() != p.mgr.waiters[i + 1].id());
            }
        } else {
            lemma_spare_served(q, guard, id);
        }
        lemma_rest_kept(p, q, served(p, Some(guard)).0, id);
    }
}

proof fn lemma_sent<T, W>(p: PoolView<T, W>, to: WaitResponder, guard: Access<T>)
    requires
        0 <= to.id() < p.waits.len(),
        wait_inv(p.waits[to.id()]),
        arrives(p.waits[to.id()]),
    ensures
        was_sent(after_waiter(after_serve(p, to, guard)), to, guard.lock, guard.value),
{
    assert(after_serve(p, to, guard).waits[to.id()] == after_reply(
        p.waits[to.id()],
        ResourceResolve::Resource(Some(ResourceGuard::of(guard))),
    ));
}

proof fn lemma_idle_served<T, W>(p: PoolView<T, W>, lock: ResourceLock)
    requires
        shared_inv(p.shared),
        only_idle(p.shared, lock),
        lined_up(p),
        line(p).len() > 0,
    ensures
        served(p, None).1 is None,
        only_served(p, served(p, None).0),
        served(p, None).0.shared.cells == after_lock(p.shared.cells, lock),
        line(served(p, None).0) == line(p).drop_first(),
        was_sent(served(p, None).0, line(p)[0], lock, guard_at(p.shared.cells, lock).value),
    decreases p.mgr.waiters.len(),
{
    let to = p.mgr.waiters[0];
    if !p.waits[to.id()].open {
        let q = after_waiter(p);
        lemma_next(p, q);
        lemma_idle_served(q, lock);
    } else {
        let guard = guard_at(p.shared.cells, lock);
        lemma_acquired(p.shared, lock);
        let taken = with_shared(p, after_acquire(p.shared));
        let q = after_waiter(after_serve(taken, to, guard));
        lemma_next(p, q);
        if arrives(p.waits[to.id()]) {
            lemma_sent(taken, to, guard);
            lemma_none_served(q, to.id());
            assert forall|i: int| 0 <= i < q.mgr.waiters.len() implies (
            #[trigger] q.mgr.waiters[i]).id() != to.id() by {
                assert(q.mgr.waiters[i] == p.mgr.waiters[i + 1]);
                assert(p.mgr.waiters[0].id() != p.mgr.waiters[i + 1].id());
            }
        } else {
            lemma_spare_served(q, guard, to.id());
        }
    }
}

proof fn lemma_created_events(m: ManagerView, events: Seq<SharedEvent>)
    requires
        forall|i: int| 0 <= i < events.len() ==> #[trigger] events[i] is Created,
    ensures
        after_events(m, events) == (ManagerView { repo: after_events(m, events).repo, ..m }),
    decreases events.len(),
{
    if events.len() > 0 {
        let rest = events.drop_last();
        assert forall|i: int| 0 <= i < rest.len() implies #[trigger] rest[i] is Created by {
            assert(rest[i] == events[i]);
        }
        lemma_created_events(m, rest);
        assert(events[events.len() - 1] is Created);
    }
}

proof fn lemma_quiet_round<T, W, R: Fn(T, ResourceInfo) -> (T, bool)>(
    p: PoolView<T, W>,
    hook: Option<R>,
    now: u128,
    post: PoolView<T, W>,
    rest: Rest,
) -> (r: (PoolView<T, W>, PoolView<T, W>))
    requires
        quiet(p),
        round(p, hook, now, post, rest),
    ensures
        r.0 == (PoolView {
            shared: SharedView { events: Seq::<SharedEvent>::empty(), ..p.shared },
            mgr: ManagerView { repo: r.0.mgr.repo, ..p.mgr },
            ..p
        }),
        waiters_served(r.0, hook, now, r.1),
        r.1.state is Active ==> post == (PoolView {
            mgr: ManagerView {
                repo: post.mgr.repo,
                last_dispose_count: post.mgr.last_dispose_count,
                ..r.1.mgr
            },
            ..r.1
        }),
{
    let (on_time, after) = choose|on_time: PoolView<T, W>, after: PoolView<T, W>| #[trigger]
        expiry(p, hook, now, on_time) && #[trigger] waiters_served(
            after_inbox(after_news(on_time)),
            hook,
            now,
            after,
        ) && pool_inv(on_time) && pool_inv(after) && post == after_round(after) && rest
            == rest_after(after);
    assert(remaining(p.mgr.timers, now) =~= p.mgr.timers);
    assert(expired(p.mgr.timers, now).len() == 0);
    assert(on_time == p);
    lemma_created_events(p.mgr, p.shared.events);
    let news = after_news(p);
    let told = after_inbox(news);
    assert(news.registers =~= Seq::<Register>::empty());
    assert(told == PoolView { registers: Seq::empty(), ..news });
    assert(told == news);
    (told, after)
}

/// When a resource is returned and the manager does a round, the first who waits
/// gets it. Who was called off or has left is passed over. The others move up.
pub proof fn law_first_in_line_is_next<T, W, R: Fn(T, ResourceInfo) -> (T, bool)>(
    p: PoolView<T, W>,
    hook: Option<R>,
    guard: Access<T>,
    now: u128,
    post: PoolView<T, W>,
)
    requires
        in_line(p, guard.lock),
        line(p).len() > 0,
        keeps(hook),
        good(guard, guard.lock),
        turn(p, hook, guard, now, post),
    ensures
        in_line(post, guard.lock),
        line(post) == line(p).drop_first(),
        exists|value: T| #[trigger]
            was_sent(post, line(p)[0], guard.lock, Some(value)) && (hook is None ==> Some(value)
                == guard.value),
        post.shared.count == p.shared.count,
        post.shared.disposed == p.shared.disposed,
        post.shared.cells.len() == p.shared.cells.len(),
{
    let lock = guard.lock;
    let (q, back, rest) = choose|q: PoolView<T, W>, back: SharedView<T>, rest: Rest| #[trigger]
        looked(p, q) && #[trigger] released(q.shared, hook, guard, now, back) && #[trigger] round(
            with_shared(q, back),
            hook,
            now,
            post,
            rest,
        );
    assert forall|i: int| 0 <= i < q.mgr.waiters.len() implies {
        let to = #[trigger] q.mgr.waiters[i];
        0 <= to.id() < q.waits.len() && wait_inv(q.waits[to.id()])
    } by {
        assert(q.mgr.waiters[i] == p.mgr.waiters[i]);
    }
    lemma_reachable(p.mgr.waiters, p.waits, q.waits);
    assert(lined_up(q));
    assert(nothing_idle(q.shared));
    assert(shared_inv(q.shared));
    lemma_back(q.shared, hook, guard, now, back);
    let given = with_shared(q, back);
    assert(quiet(given));
    let (told, fed) = lemma_quiet_round(given, hook, now, post, rest);
    assert(lined_up(told));
    assert(only_idle(told.shared, lock));
    assert(shared_inv(told.shared));
    lemma_idle_served(told, lock);
    assert(told.shared.idle.len() > 0);
    assert(fed == served(told, None).0);
    let value = guard_at(back.cells, lock).value;
    assert(was_sent(post, line(p)[0], lock, Some(value->0)));
    assert(lined_up(post));
    assert(quiet(post));
}

/// Who leaves is no longer in line, and the order of the others stays as it is.
pub proof fn law_leaving_keeps_order<T, W>(p: PoolView<T, W>, lock: ResourceLock, i: int)
    requires
        in_line(p, lock),
        0 <= i < p.mgr.waiters.len(),
        arrives(p.waits[p.mgr.waiters[i].id()]),
    ensures
        ({
            let id = p.mgr.waiters[i].id();
            let left = PoolView { waits: p.waits.update(id, after_leave(p.waits[id])), ..p };
            &&& in_line(left, lock)
            &&& line(left) == line(p).filter(|to: WaitResponder| to.id() != id)
        }),
{
    let id = p.mgr.waiters[i].id();
    let left = PoolView { waits: p.waits.update(id, after_leave(p.waits[id])), ..p };
    assert forall|i: int| 0 <= i < left.mgr.waiters.len() implies {
        let to = #[trigger] left.mgr.waiters[i];
        0 <= to.id() < left.waits.len() && wait_inv(left.waits[to.id()])
    } by {
        assert(left.mgr.waiters[i] == p.mgr.waiters[i]);
    }
    lemma_left(p.mgr.waiters, p.waits, id);
}

proof fn lemma_left<T, W>(
    waiters: Seq<WaitResponder>,
    waits: Seq<WaitView<Resolve<T>, W>>,
    id: int,
)
    requires
        0 <= id < waits.len(),
        forall|i: int| 0 <= i < waiters.len() ==> 0 <= (#[trigger] waiters[i]).id() < waits.len(),
        wait_inv(waits[id]),
    ensures
        reachable(waiters, waits.update(id, after_leave(waits[id]))) == reachable(
            waiters,
            waits,
        ).filter(|to: WaitResponder| to.id() != id),
    decreases waiters.len(),
{
    let other = |to: WaitResponder| to.id() != id;
    let rest = waiters.drop_first();
    if waiters.len() == 0 {
        assert(waiters.filter(other) =~= waiters) by {
            reveal(Seq::filter);
        }
    } else {
        assert forall|i: int| 0 <= i < rest.len() implies 0 <= (#[trigger] rest[i]).id()
            < waits.len() by {
            assert(rest[i] == waiters[i + 1]);
        }
        lemma_left(rest, waits, id);
        if arrives(waits[waiters[0].id()]) {
            Seq::filter_distributes_over_add(
                seq![waiters[0]],
                reachable(rest, waits),
                other,
            );
            assert(seq![waiters[0]].filter(other) =~= (if other(waiters[0]) {
                seq![waiters[0]]
            } else {
                Seq::empty()
            })) by {
                reveal(Seq::filter);
                assert(seq![waiters[0]].drop_last() =~= Seq::empty());
                reveal_with_fuel(Seq::filter, 2);
            }
            assert(Seq::empty() + reachable(rest, waits).filter(other) =~= reachable(
                rest,
                waits,
            ).filter(other));
        }
    }
}

/// Those who wait for a resource get it in the order in which they came, each as
/// soon as the one before has returned it. Who was called off or has left is passed
/// over. It is the same resource each time: nothing is disposed of or created, and
/// it is never with two at a time.
///
/// This is about a pool in which nothing else happens, and in which resources are
/// not verified.
#[verifier::rlimit(40)]
pub proof fn law_passed_on_in_order<T, W, R: Fn(T, ResourceInfo) -> (T, bool)>(
    p: PoolView<T, W>,
    hook: Option<R>,
    lock: ResourceLock,
    turns: Seq<(Access<T>, u128)>,
    post: PoolView<T, W>,
)
    requires
        in_line(p, lock),
        keeps(hook),
        turns.len() <= line(p).len(),
        forall|i: int| 0 <= i < turns.len() ==> good((#[trigger] turns[i]).0, lock),
        turns_taken(p, hook, turns, post),
    ensures
        in_line(post, lock),
        line(post) == line(p).skip(turns.len() as int),
        turns.len() > 0 ==> exists|value: T| #[trigger]
            was_sent(post, line(p)[turns.len() - 1], lock, Some(value)) && (hook is None ==> Some(
                value,
            ) == turns.last().0.value),
        post.shared.count == p.shared.count,
        post.shared.disposed == p.shared.disposed,
        post.shared.cells.len() == p.shared.cells.len(),
    decreases turns.len(),
{
    if turns.len() > 0 {
        let rest = turns.drop_last();
        let mid = choose|mid: PoolView<T, W>|
            turns_taken(p, hook, rest, mid) && #[trigger] turn(
                mid,
                hook,
                turns.last().0,
                turns.last().1,
                post,
            );
        assert forall|i: int| 0 <= i < rest.len() implies good((#[trigger] rest[i]).0, lock) by {
            assert(rest[i] == turns[i]);
        }
        law_passed_on_in_order(p, hook, lock, rest, mid);
        assert(good(turns[turns.len() - 1].0, lock));
        law_first_in_line_is_next(mid, hook, turns.last().0, turns.last().1, post);
        assert(line(mid)[0] == line(p)[turns.len() - 1]);
        assert(line(p).skip(turns.len() - 1).drop_first() =~= line(p).skip(turns.len() as int));
    } else {
        assert(line(p).skip(0) =~= line(p));
    }
}

} // verus!
