//! What comes of a request for a resource.

use vstd::prelude::*;

use crate::dropshot::{attempt, taken_by_cancel, Attempt, Canceled};
use crate::pool::acquire::{
    after_failure, after_reject, answers, completed, from_guard, progress, request_dropped,
    resolve_dropped, AcquirePoll, AcquireView, Answer, Done, Progress,
};
use crate::pool::keeping::{agrees, law_good_resource_is_kept, put_by, thrown_out};
use crate::pool::model::{
    after_expire, after_idle, after_look, after_skip, after_try_wait, idle_resource,
    lemma_after_idle, with_shared, Access, PoolView, Register, Resolve,
};
use crate::resource::info::ResourceInfo;
use crate::resource::lock::{known, ready, Cell, GuardView, ResourceGuard, ResourceLock};
use crate::resource::operation::{Operation, ResourceResolve, Work};
use crate::shared::{after_acquire, live_idle, next_idle, SharedEvent, SharedView};
use crate::wait::{after_leave, arrives, wait_inv, woken_by, WaitResponder};

verus! {

broadcast use {
    ResourceLock::lemma_at,
    ResourceLock::lemma_same,
    ResourceGuard::lemma_of,
    ResourceGuard::lemma_view,
};

/// Check that a resource, known by its lock, is the first that was returned and can
/// be handed out.
pub open spec fn is_first<T>(
    s: SharedView<T>,
    k: int,
    info: ResourceInfo,
    value: T,
) -> bool {
    &&& 0 <= k < s.idle.len()
    &&& s.cells[s.idle[k].id()] == Cell::Free(info, Some(value))
    &&& forall|i: int|
        0 <= i < k ==> !(s.cells[(#[trigger] s.idle[i]).id()] matches Cell::Free(_, Some(_)))
}

/// Check that nothing that was returned can be handed out to somebody who comes now.
pub open spec fn none_to_offer<T>(s: SharedView<T>) -> bool {
    s.waiter_count > 0 || forall|i: int|
        0 <= i < s.idle.len() ==> !(s.cells[(#[trigger] s.idle[i]).id()] matches Cell::Free(
            _,
            Some(_),
        ))
}

/// Check that a resource was not used for too long.
pub open spec fn stale(info: ResourceInfo, now: u128) -> bool {
    info.verify_at matches Some(at) && at < now
}

/// What is known about a resource that is handed out once more.
pub open spec fn once_more(info: ResourceInfo, now: u128) -> ResourceInfo {
    ResourceInfo {
        acquire_count: if info.acquire_count == usize::MAX {
            0
        } else {
            (info.acquire_count + 1) as usize
        },
        last_acquire: Some(now),
        ..info
    }
}

/// What is shared when the first resource was taken out, and those before it, which
/// had nothing to offer, were dropped.
pub open spec fn taken_out<T>(s: SharedView<T>, k: int) -> SharedView<T> {
    SharedView {
        idle: s.idle.skip(k + 1),
        cells: s.cells.update(s.idle[k].id(), Cell::Held),
        ..s
    }
}

/// What is shared when the first resource was disposed of.
pub open spec fn used_up<T>(
    s: SharedView<T>,
    k: int,
    info: ResourceInfo,
    value: T,
) -> SharedView<T> {
    SharedView {
        idle: s.idle.skip(k + 1),
        cells: s.cells.update(s.idle[k].id(), Cell::Free(info, None)),
        count: if s.count == 0 {
            usize::MAX
        } else {
            (s.count - 1) as usize
        },
        dispose_count: if s.dispose_count == usize::MAX {
            0
        } else {
            (s.dispose_count + 1) as usize
        },
        disposed: s.disposed.push((value, info)),
        notified: true,
        ..s
    }
}

/// What a new request leads to.
pub open spec fn asked<T, W>(p: PoolView<T, W>, start: u128, now: u128, waker: W) -> Progress<T, W> {
    progress(p, Some(AcquireView::Init), start, now, waker)
}

/// A queue of locks without those in front that have nothing to offer.
pub proof fn lemma_first<I, T>(idle: Seq<ResourceLock>, cells: Seq<Cell<I, T>>, k: int)
    requires
        0 <= k < idle.len(),
        ready(cells, idle[k]),
        forall|i: int| 0 <= i < k ==> !ready(cells, #[trigger] idle[i]),
    ensures
        live_idle(idle, cells) == idle.skip(k),
    decreases k,
{
    if k > 0 {
        assert(!ready(cells, idle[0]));
        let rest = idle.drop_first();
        assert forall|i: int| 0 <= i < k - 1 implies !ready(cells, #[trigger] rest[i]) by {
            assert(rest[i] == idle[i + 1]);
        }
        lemma_first(rest, cells, k - 1);
        assert(rest.skip(k - 1) =~= idle.skip(k));
    } else {
        assert(idle.skip(0) =~= idle);
    }
}

proof fn lemma_is_first<T>(s: SharedView<T>, k: int, info: ResourceInfo, value: T)
    requires
        is_first(s, k, info, value),
    ensures
        next_idle(s) == Some(GuardView { lock: s.idle[k], info, value: Some(value) }),
        after_acquire(s) == taken_out(s, k),
{
    assert forall|i: int| 0 <= i < k implies !ready(s.cells, #[trigger] s.idle[i]) by {}
    lemma_first(s.idle, s.cells, k);
    assert(s.idle.skip(k).drop_first() =~= s.idle.skip(k + 1));
}

/// A queue in which nothing has anything to offer.
pub proof fn lemma_none<I, T>(idle: Seq<ResourceLock>, cells: Seq<Cell<I, T>>)
    requires
        forall|i: int| 0 <= i < idle.len() ==> !ready(cells, #[trigger] idle[i]),
    ensures
        live_idle(idle, cells).len() == 0,
    decreases idle.len(),
{
    if idle.len() > 0 {
        assert(!ready(cells, idle[0]));
        let rest = idle.drop_first();
        assert forall|i: int| 0 <= i < rest.len() implies !ready(cells, #[trigger] rest[i]) by {
            assert(rest[i] == idle[i + 1]);
        }
        lemma_none(rest, cells);
    }
}

/// While nobody waits, a new request is granted the resource that was returned first,
/// if it is still good, as it was returned. Nothing is created, however many there may
/// be.
pub proof fn law_returned_is_reused<T, W>(
    p: PoolView<T, W>,
    k: int,
    info: ResourceInfo,
    value: T,
    start: u128,
    now: u128,
    waker: W,
)
    requires
        p.shared.waiter_count == 0,
        is_first(p.shared, k, info, value),
        !info.expired,
        !stale(info, now),
    ensures
        asked(p, start, now, waker) == (Progress {
            pool: PoolView { shared: taken_out(p.shared, k), ..p },
            state: None,
            answer: Answer::Granted(
                GuardView {
                    lock: p.shared.idle[k],
                    info: once_more(info, now),
                    value: Some(value),
                },
            ),
        }),
{
    lemma_is_first(p.shared, k, info, value);
    assert(after_skip(p.shared, now) == p.shared);
}

/// While nobody waits, a new request that meets a resource that was not used for too
/// long has it verified first, if the pool verifies.
pub proof fn law_stale_is_verified<T, W>(
    p: PoolView<T, W>,
    k: int,
    info: ResourceInfo,
    value: T,
    start: u128,
    now: u128,
    waker: W,
)
    requires
        p.shared.waiter_count == 0,
        p.verify,
        is_first(p.shared, k, info, value),
        stale(info, now),
    ensures
        asked(p, start, now, waker) == (Progress {
            pool: PoolView { shared: taken_out(p.shared, k), ..p },
            state: Some(
                AcquireView::Resolve(
                    ResourceResolve::Future(
                        Operation {
                            work: Work::Verify,
                            guard: ResourceGuard::of(
                                GuardView {
                                    lock: p.shared.idle[k],
                                    info: once_more(info, now),
                                    value: Some(value),
                                },
                            ),
                        },
                    ),
                ),
            ),
            answer: Answer::Evaluate,
        }),
{
    lemma_is_first(p.shared, k, info, value);
}

/// While nobody waits, a new request that meets a resource that was not used for too
/// long goes on as if it had been disposed of, if the pool does not verify. So it does
/// with one that has expired.
pub proof fn law_useless_is_passed_over<T, W>(
    p: PoolView<T, W>,
    k: int,
    info: ResourceInfo,
    value: T,
    start: u128,
    now: u128,
    waker: W,
)
    requires
        p.shared.waiter_count == 0,
        is_first(p.shared, k, info, value),
        0 <= p.shared.idle[k].id() < p.shared.cells.len(),
        stale(info, now) ==> !p.verify,
        !stale(info, now) ==> info.expired,
    ensures
        ({
            let last = if stale(info, now) {
                ResourceInfo { expired: true, last_idle: Some(now), ..info }
            } else {
                ResourceInfo { last_idle: Some(now), ..once_more(info, now) }
            };
            asked(p, start, now, waker) == asked(
                PoolView { shared: used_up(p.shared, k, last, value), ..p },
                start,
                now,
                waker,
            )
        }),
{
    let s = p.shared;
    lemma_is_first(s, k, info, value);
    lemma_after_idle(s, p.verify, now);
    if stale(info, now) {
        let last = ResourceInfo { expired: true, last_idle: Some(now), ..info };
        let left = after_expire(s, now);
        assert(left.cells =~= used_up(s, k, last, value).cells);
        assert(left == used_up(s, k, last, value));
        assert(after_skip(s, now) == after_skip(left, now));
        lemma_after_idle(left, p.verify, now);
    } else {
        let last = ResourceInfo { last_idle: Some(now), ..once_more(info, now) };
        assert(after_skip(s, now) == s);
        let q = with_shared(p, after_idle(s, p.verify, now));
        let guard = GuardView {
            lock: s.idle[k],
            info: once_more(info, now),
            value: Some(value),
        };
        let left = after_reject(q, guard, now);
        assert(left.shared.cells =~= used_up(s, k, last, value).cells);
        assert(left.shared == used_up(s, k, last, value));
    }
}

/// What is shared when a request finds nothing: what has nothing to offer is dropped,
/// unless others wait.
pub open spec fn looked_over<T>(s: SharedView<T>) -> SharedView<T> {
    SharedView {
        idle: if s.waiter_count > 0 {
            s.idle
        } else {
            Seq::empty()
        },
        ..s
    }
}

proof fn lemma_looked_over<T>(s: SharedView<T>, verify: bool, now: u128)
    requires
        none_to_offer(s),
    ensures
        idle_resource(s, verify, now) == ResourceResolve::<ResourceInfo, T>::Resource(None),
        after_idle(s, verify, now) == looked_over(s),
{
    if s.waiter_count == 0 {
        assert forall|i: int| 0 <= i < s.idle.len() implies !ready(s.cells, #[trigger] s.idle[i]) by {
        }
        lemma_none(s.idle, s.cells);
        assert(after_skip(s, now) == s);
        assert(live_idle(s.idle, s.cells) =~= Seq::empty());
    }
}

/// A new request that finds nothing starts the creation of one resource, which counts
/// from now on, if there is no limit or it has not been reached. The resource may be
/// used again if and only if there is a time for which it may be unused.
pub proof fn law_created_if_nothing_is_found<T, W>(
    p: PoolView<T, W>,
    start: u128,
    now: u128,
    waker: W,
)
    requires
        none_to_offer(p.shared),
        p.shared.max_count == 0 || p.shared.count < p.shared.max_count,
        p.shared.count < usize::MAX,
        p.shared.cells.len() < usize::MAX,
    ensures
        ({
            let lock = ResourceLock::at(p.shared.cells.len() as usize);
            let info = ResourceInfo {
                start: now,
                created_at: None,
                acquire_count: 1,
                last_acquire: Some(now),
                last_idle: None,
                expired: false,
                reusable: p.shared.idle_timeout is Some,
                verify_at: None,
            };
            asked(p, start, now, waker) == (Progress {
                pool: PoolView {
                    shared: SharedView {
                        count: (p.shared.count + 1) as usize,
                        cells: p.shared.cells.push(Cell::Held),
                        events: p.shared.events.push(SharedEvent::Created(lock)),
                        ..looked_over(p.shared)
                    },
                    ..p
                },
                state: Some(
                    AcquireView::Resolve(
                        ResourceResolve::Future(
                            Operation {
                                work: Work::Create,
                                guard: ResourceGuard::of(GuardView { lock, info, value: None }),
                            },
                        ),
                    ),
                ),
                answer: Answer::Evaluate,
            })
        }),
{
    lemma_looked_over(p.shared, p.verify, now);
}

/// A new request that finds nothing, when there are as many resources as there may be,
/// waits: the manager is told, and a reply wakes whoever asked. It is refused, and
/// changes nothing more, if as many wait as may.
pub proof fn law_waits_if_there_may_be_no_more<T, W>(
    p: PoolView<T, W>,
    start: u128,
    now: u128,
    waker: W,
)
    requires
        none_to_offer(p.shared),
        0 < p.shared.max_count <= p.shared.count,
        p.shared.waiter_count < usize::MAX,
        p.waits.len() < usize::MAX,
    ensures
        ({
            let id = p.waits.len() as int;
            let next = asked(p, start, now, waker);
            let full = p.shared.max_waiters is Some && p.shared.waiter_count
                >= p.shared.max_waiters->0;
            &&& full ==> next == (Progress {
                pool: PoolView { shared: looked_over(p.shared), ..p },
                state: None,
                answer: Answer::Busy,
            })
            &&& !full ==> {
                &&& next.answer is Pending
                &&& next.state == Some(AcquireView::<T>::Waiting(id))
                &&& next.pool == (PoolView {
                    shared: SharedView {
                        waiter_count: (p.shared.waiter_count + 1) as usize,
                        notified: true,
                        ..looked_over(p.shared)
                    },
                    waits: next.pool.waits,
                    registers: p.registers.push(
                        Register::Waiter(start, WaitResponder::at(p.waits.len() as usize)),
                    ),
                    ..p
                })
                &&& next.pool.waits.len() == p.waits.len() + 1
                &&& next.pool.waits.drop_last() == p.waits
                &&& wait_inv(next.pool.waits[id])
                &&& arrives(next.pool.waits[id])
                &&& woken_by(next.pool.waits[id]) == Some(waker)
            }
        }),
{
    lemma_looked_over(p.shared, p.verify, now);
    let m = with_shared(p, looked_over(p.shared));
    let next = asked(p, start, now, waker);
    if next.answer is Pending {
        assert(next.pool == after_look(after_try_wait(m, start), p.waits.len() as int, waker));
        assert(next.pool.waits.drop_last() =~= p.waits);
    }
}

/// A request for which a resource has come is granted that resource, and nothing else
/// changes. If it has expired it is disposed of, and the request starts over.
pub proof fn law_found_is_granted<T, W>(
    p: PoolView<T, W>,
    guard: Access<T>,
    start: u128,
    now: u128,
    waker: W,
)
    ensures
        ({
            let found = Some(
                AcquireView::Resolve(ResourceResolve::Resource(Some(ResourceGuard::of(guard)))),
            );
            let next = progress(p, found, start, now, waker);
            let last = ResourceInfo { last_idle: Some(now), ..guard.info };
            &&& !guard.info.expired ==> next == (Progress {
                pool: p,
                state: None,
                answer: Answer::Granted(guard),
            })
            &&& guard.info.expired && guard.value is Some ==> next == asked(
                PoolView {
                    shared: SharedView {
                        cells: p.shared.cells.update(
                            guard.lock.id(),
                            Cell::Free(last, None),
                        ),
                        count: if p.shared.count == 0 {
                            usize::MAX
                        } else {
                            (p.shared.count - 1) as usize
                        },
                        dispose_count: if p.shared.dispose_count == usize::MAX {
                            0
                        } else {
                            (p.shared.dispose_count + 1) as usize
                        },
                        disposed: p.shared.disposed.push((guard.value->0, last)),
                        notified: true,
                        ..p.shared
                    },
                    ..p
                },
                start,
                now,
                waker,
            )
        }),
{
}

/// A resource that was created is granted to the request for which it was, with the
/// time. One that turned out to be good is granted as it was. One that did not is
/// treated as one that has expired.
pub proof fn law_completed_is_granted<T, W>(
    p: PoolView<T, W>,
    guard: Access<T>,
    value: T,
    start: u128,
    now: u128,
    waker: W,
)
    requires
        !guard.info.expired,
    ensures
        from_guard(p, completed(guard, Done::Created(value), now), start, now, waker) == (
        Progress {
            pool: p,
            state: None,
            answer: Answer::Granted(
                GuardView {
                    lock: guard.lock,
                    info: ResourceInfo { created_at: Some(now), ..guard.info },
                    value: Some(value),
                },
            ),
        }),
        from_guard(p, completed(guard, Done::Verified(true), now), start, now, waker) == (
        Progress { pool: p, state: None, answer: Answer::Granted(guard) }),
        from_guard(p, completed(guard, Done::Verified(false), now), start, now, waker)
            == progress(
            p,
            Some(
                AcquireView::Resolve(
                    ResourceResolve::Resource(
                        Some(
                            ResourceGuard::of(
                                GuardView {
                                    info: ResourceInfo { expired: true, ..guard.info },
                                    ..guard
                                },
                            ),
                        ),
                    ),
                ),
            ),
            start,
            now,
            waker,
        ),
{
}

/// A request whose reply has come is granted the resource that was sent, if it is good.
/// Nobody finds the same reply again. A request without a reply goes on waiting, and a
/// reply wakes whoever looked last.
pub proof fn law_reply_is_granted<T, W>(
    p: PoolView<T, W>,
    id: int,
    start: u128,
    now: u128,
    waker: W,
)
    requires
        0 <= id < p.waits.len(),
        wait_inv(p.waits[id]),
    ensures
        ({
            let next = progress(p, Some(AcquireView::Waiting(id)), start, now, waker);
            &&& attempt(p.waits[id].shot, true) matches Attempt::Ready(
                Ok(ResourceResolve::Resource(Some(guard))),
            ) ==> !guard@.info.expired ==> {
                &&& next.answer == Answer::Granted(guard@)
                &&& next.state is None
                &&& next.pool == (PoolView { waits: next.pool.waits, ..p })
                &&& next.pool.waits.len() == p.waits.len()
                &&& next.pool.waits.remove(id) == p.waits.remove(id)
                &&& attempt(next.pool.waits[id].shot, true) == Attempt::<Resolve<T>>::Ready(
                    Err(Canceled),
                )
            }
            &&& arrives(p.waits[id]) ==> {
                &&& next.answer is Pending
                &&& next.state == Some(AcquireView::<T>::Waiting(id))
                &&& next.pool == (PoolView { waits: next.pool.waits, ..p })
                &&& next.pool.waits.len() == p.waits.len()
                &&& next.pool.waits.remove(id) == p.waits.remove(id)
                &&& arrives(next.pool.waits[id])
                &&& woken_by(next.pool.waits[id]) == Some(waker)
            }
        }),
{
    let next = progress(p, Some(AcquireView::Waiting(id)), start, now, waker);
    assert(after_look(p, id, waker).waits.remove(id) =~= p.waits.remove(id));
}

/// A request that is given up loses nothing. A resource that it had, or that was sent
/// to it, is put by for the next unless it is not good or a hook objects; work that was
/// under way goes on in the background; and nothing is sent to it any more.
pub proof fn law_given_up_loses_nothing<T, W, R: Fn(T, ResourceInfo) -> (T, bool)>(
    p: PoolView<T, W>,
    hook: Option<R>,
    state: AcquireView<T>,
    now: u128,
    post: PoolView<T, W>,
)
    requires
        request_dropped(p, hook, Some(state), now, post),
        agrees(hook),
        state matches AcquireView::Waiting(id) ==> 0 <= id < p.waits.len() && wait_inv(
            p.waits[id],
        ),
    ensures
        match state {
            AcquireView::Init => post == p,
            AcquireView::Resolve(resolve) => handed_back(p, hook, resolve, now, post)
                && post.waits == p.waits,
            AcquireView::Waiting(id) => {
                &&& post.waits.len() == p.waits.len()
                &&& post.waits.remove(id) == p.waits.remove(id)
                &&& !arrives(post.waits[id])
                &&& match attempt(p.waits[id].shot, true) {
                    Attempt::Ready(Ok(resolve)) => handed_back(p, hook, resolve, now, post),
                    _ => post == (PoolView { waits: post.waits, ..p }),
                }
            },
        },
{
    if let AcquireView::Resolve(resolve) = state {
        lemma_handed_back(p, hook, resolve, now, post);
    }
    if let AcquireView::Waiting(id) = state {
        let left = PoolView { waits: p.waits.update(id, after_leave(p.waits[id])), ..p };
        assert(left.waits.remove(id) =~= p.waits.remove(id));
        if let Some(resolve) = taken_by_cancel(p.waits[id].shot) {
            lemma_handed_back(left, hook, resolve, now, post);
        }
    }
}

/// Check that what a request had is where it can be found.
pub open spec fn handed_back<T, W, R: Fn(T, ResourceInfo) -> (T, bool)>(
    p: PoolView<T, W>,
    hook: Option<R>,
    resolve: Resolve<T>,
    now: u128,
    post: PoolView<T, W>,
) -> bool {
    match resolve {
        ResourceResolve::Future(operation) => post == (PoolView {
            waits: post.waits,
            spawned: p.spawned.push(operation),
            ..p
        }),
        ResourceResolve::Resource(None) => post == (PoolView { waits: post.waits, ..p }),
        ResourceResolve::Resource(Some(guard)) => {
            &&& post == (PoolView { waits: post.waits, shared: post.shared, ..p })
            &&& known(p.shared.cells, guard@.lock) && guard@.value is Some && !guard@.info.expired
                && (guard@.info.reusable || p.shared.waiter_count > 0) ==> exists|value: T|
                #[trigger]
                put_by(p.shared, guard@.lock, guard@.info, value, now, post.shared) && (hook
                    is None ==> value == guard@.value->0)
        },
    }
}

proof fn lemma_handed_back<T, W, R: Fn(T, ResourceInfo) -> (T, bool)>(
    p: PoolView<T, W>,
    hook: Option<R>,
    resolve: Resolve<T>,
    now: u128,
    post: PoolView<T, W>,
)
    requires
        resolve_dropped(p, hook, resolve, now, post),
        agrees(hook),
    ensures
        handed_back(p, hook, resolve, now, post),
        post.waits == p.waits,
{
    if let ResourceResolve::Resource(Some(guard)) = resolve {
        if known(p.shared.cells, guard@.lock) && guard@.value is Some && !guard@.info.expired && (
        guard@.info.reusable || p.shared.waiter_count > 0) {
            law_good_resource_is_kept(p.shared, hook, guard@, now, post.shared);
        }
    }
}

/// Work on a resource that fails takes the resource out of the count, and nothing of it
/// is left.
pub proof fn law_failed_is_gone<T, W>(p: PoolView<T, W>, guard: Access<T>)
    ensures
        thrown_out(p.shared, guard.lock, guard.info, guard.value, after_failure(p, guard).shared),
        after_failure(p, guard) == (PoolView { shared: after_failure(p, guard).shared, ..p }),
{
}

/// What a request is answered is what its maker learns.
pub proof fn law_answer_is_passed_on<T, E>(r: AcquirePoll<T, E>, answer: Answer<T>)
    requires
        answers(r, answer),
    ensures
        r matches AcquirePoll::Ready(Ok(managed)) ==> answer == Answer::Granted(managed@),
        r matches AcquirePoll::Ready(Err(error)) ==> (answer is Busy && error is PoolBusy) || (
        answer is Closed && error is PoolClosed) || (answer is Timeout && error is Timeout),
        r is Pending ==> answer is Pending,
        r is Evaluate ==> answer is Evaluate,
{
}

} // verus!
