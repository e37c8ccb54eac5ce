//! What comes of a request for a resource.

use vstd::prelude::*;

use crate::arp::acquire::{
    answers, progress, request_dropped, resolve_dropped, AcquirePoll, Progress,
};
use crate::arp::keeping::{law_good_resource_is_kept, put_by};
use crate::arp::model::{
    after_idle, after_look, after_try_wait, idle_resource, with_shared, PoolView, Register,
};
use crate::arp::shared::{after_acquire, next_idle, SharedView};
use crate::dropshot::{attempt, taken_by_cancel, Attempt, Canceled};
use crate::pool::acquire::{completed, AcquireView, Answer, Done};
use crate::pool::keeping::agrees;
use crate::pool::model::{Access, Resolve};
use crate::pool::requests::{lemma_first, lemma_none, once_more};
use crate::resource::info::ResourceInfo;
use crate::resource::lock::{known, ready, Cell, GuardView, ResourceGuard, ResourceLock};
use crate::resource::operation::{Operation, ResourceResolve, Work};
use crate::shared::{live_idle, SharedEvent};
use crate::wait::{after_leave, arrives, wait_inv, woken_by, WaitResponder};

verus! {

broadcast use {
    ResourceLock::lemma_at,
    ResourceLock::lemma_same,
    ResourceGuard::lemma_of,
    ResourceGuard::lemma_view,
};

/// Check that a resource, known by its lock, is the first that was returned and can
/// be handed out.
pub open spec fn is_first<T>(
    s: SharedView<T>,
    k: int,
    info: ResourceInfo,
    value: T,
) -> bool {
    &&& 0 <= k < s.idle.len()
    &&& s.cells[s.idle[k].id()] == Cell::Free(info, Some(value))
    &&& forall|i: int|
        0 <= i < k ==> !(s.cells[(#[trigger] s.idle[i]).id()] matches Cell::Free(_, Some(_)))
}

/// Check that nothing that was returned can be handed out to somebody who comes now.
pub open spec fn none_to_offer<T>(s: SharedView<T>) -> bool {
    s.busy || forall|i: int|
        0 <= i < s.idle.len() ==> !(s.cells[(#[trigger] s.idle[i]).id()] matches Cell::Free(
            _,
            Some(_),
        ))
}

/// What is shared when the first resource was taken out, and those before it, which
/// had nothing to offer, were dropped.
pub open spec fn taken_out<T>(s: SharedView<T>, k: int) -> SharedView<T> {
    SharedView {
        idle: s.idle.skip(k + 1),
        cells: s.cells.update(s.idle[k].id(), Cell::Held),
        ..s
    }
}

/// What a new request leads to.
pub open spec fn asked<T, W>(p: PoolView<T, W>, start: u128, now: u128, waker: W) -> Progress<T, W> {
    progress(p, Some(AcquireView::Init), start, now, waker)
}

proof fn lemma_is_first<T>(
    s: SharedView<T>,
    k: int,
    info: ResourceInfo,
    value: T,
    now: u128,
)
    requires
        is_first(s, k, info, value),
    ensures
        next_idle(s, now) == Some(
            GuardView { lock: s.idle[k], info: once_more(info, now), value: Some(value) },
        ),
        after_acquire(s) == taken_out(s, k),
{
    assert forall|i: int| 0 <= i < k implies !ready(s.cells, #[trigger] s.idle[i]) by {}
    lemma_first(s.idle, s.cells, k);
    assert(s.idle.skip(k).drop_first() =~= s.idle.skip(k + 1));
}

/// While nobody waits, a new request is granted the resource that was returned first,
/// as it was returned. Nothing is created, however many there may
/// be.
pub proof fn law_returned_is_reused<T, W>(
    p: PoolView<T, W>,
    k: int,
    info: ResourceInfo,
    value: T,
    start: u128,
    now: u128,
    waker: W,
)
    requires
        !p.shared.busy,
        is_first(p.shared, k, info, value),
    ensures
        asked(p, start, now, waker) == (Progress {
            pool: PoolView { shared: taken_out(p.shared, k), ..p },
            state: None,
            answer: Answer::Granted(
                GuardView {
                    lock: p.shared.idle[k],
                    info: once_more(info, now),
                    value: Some(value),
                },
            ),
        }),
{
    lemma_is_first(p.shared, k, info, value, now);
}

/// What is shared when a request finds nothing: what has nothing to offer is dropped,
/// unless others wait.
pub open spec fn looked_over<T>(s: SharedView<T>) -> SharedView<T> {
    SharedView {
        idle: if s.busy {
            s.idle
        } else {
            Seq::empty()
        },
        ..s
    }
}

proof fn lemma_looked_over<T>(s: SharedView<T>, now: u128)
    requires
        none_to_offer(s),
    ensures
        idle_resource(s, now) == ResourceResolve::<ResourceInfo, T>::Resource(None),
        after_idle(s) == looked_over(s),
{
    if !s.busy {
        assert forall|i: int| 0 <= i < s.idle.len() implies !ready(s.cells, #[trigger] s.idle[i]) by {
        }
        lemma_none(s.idle, s.cells);
        assert(live_idle(s.idle, s.cells) =~= Seq::empty());
    }
}

/// A new request that finds nothing starts the creation of one resource, which counts
/// from now on, if there is no limit or it has not been reached. The resource may be
/// used again if and only if there is a time for which it may be unused.
pub proof fn law_created_if_nothing_is_found<T, W>(
    p: PoolView<T, W>,
    start: u128,
    now: u128,
    waker: W,
)
    requires
        none_to_offer(p.shared),
        p.shared.max_count == 0 || p.shared.count < p.shared.max_count,
        p.shared.count < usize::MAX,
        p.shared.cells.len() < usize::MAX,
    ensures
        ({
            let lock = ResourceLock::at(p.shared.cells.len() as usize);
            let info = ResourceInfo {
                start: now,
                created_at: None,
                acquire_count: 0,
                last_acquire: None,
                last_idle: None,
                expired: false,
                reusable: p.shared.idle_timeout is Some,
                verify_at: None,
            };
            asked(p, start, now, waker) == (Progress {
                pool: PoolView {
                    shared: SharedView {
                        count: (p.shared.count + 1) as usize,
                        cells: p.shared.cells.push(Cell::Held),
                        events: p.shared.events.push(SharedEvent::Created(lock)),
                        ..looked_over(p.shared)
                    },
                    ..p
                },
                state: Some(
                    AcquireView::Resolve(
                        ResourceResolve::Future(
                            Operation {
                                work: Work::Create,
                                guard: ResourceGuard::of(GuardView { lock, info, value: None }),
                            },
                        ),
                    ),
                ),
                answer: Answer::Evaluate,
            })
        }),
{
    lemma_looked_over(p.shared, now);
}

/// A new request that finds nothing, when there are as many resources as there may be,
/// waits: the manager is told, and a reply wakes whoever asked.
pub proof fn law_waits_if_there_may_be_no_more<T, W>(
    p: PoolView<T, W>,
    start: u128,
    now: u128,
    waker: W,
)
    requires
        none_to_offer(p.shared),
        0 < p.shared.max_count <= p.shared.count,
        p.waits.len() < usize::MAX,
    ensures
        ({
            let id = p.waits.len() as int;
            let next = asked(p, start, now, waker);
            &&& next.answer is Pending
            &&& next.state == Some(AcquireView::<T>::Waiting(id))
            &&& next.pool == (PoolView {
                shared: SharedView { notified: true, ..looked_over(p.shared) },
                waits: next.pool.waits,
                registers: p.registers.push(
                    Register::Waiter(start, WaitResponder::at(p.waits.len() as usize)),
                ),
                ..p
            })
            &&& next.pool.waits.len() == p.waits.len() + 1
            &&& next.pool.waits.drop_last() == p.waits
            &&& wait_inv(next.pool.waits[id])
            &&& arrives(next.pool.waits[id])
            &&& woken_by(next.pool.waits[id]) == Some(waker)
        }),
{
    lemma_looked_over(p.shared, now);
    let m = with_shared(p, looked_over(p.shared));
    let next = asked(p, start, now, waker);
    assert(next.pool == after_look(after_try_wait(m, start), p.waits.len() as int, waker));
    assert(next.pool.waits.drop_last() =~= p.waits);
}

/// A request for which a resource has come is granted that resource, and nothing else
/// changes.
pub proof fn law_found_is_granted<T, W>(
    p: PoolView<T, W>,
    guard: Access<T>,
    start: u128,
    now: u128,
    waker: W,
)
    ensures
        progress(
            p,
            Some(AcquireView::Resolve(ResourceResolve::Resource(Some(ResourceGuard::of(guard))))),
            start,
            now,
            waker,
        ) == (Progress { pool: p, state: None, answer: Answer::Granted(guard) }),
{
}

/// A request whose reply has come is granted the resource that was sent.
/// Nobody finds the same reply again. A request without a reply goes on waiting, and a
/// reply wakes whoever looked last.
pub proof fn law_reply_is_granted<T, W>(
    p: PoolView<T, W>,
    id: int,
    start: u128,
    now: u128,
    waker: W,
)
    requires
        0 <= id < p.waits.len(),
        wait_inv(p.waits[id]),
    ensures
        ({
            let next = progress(p, Some(AcquireView::Waiting(id)), start, now, waker);
            &&& attempt(p.waits[id].shot, true) matches Attempt::Ready(
                Ok(ResourceResolve::Resource(Some(guard))),
            ) ==> {
                &&& next.answer == Answer::Granted(guard@)
                &&& next.state is None
                &&& next.pool == (PoolView { waits: next.pool.waits, ..p })
                &&& next.pool.waits.len() == p.waits.len()
                &&& next.pool.waits.remove(id) == p.waits.remove(id)
                &&& attempt(next.pool.waits[id].shot, true) == Attempt::<Resolve<T>>::Ready(
                    Err(Canceled),
                )
            }
            &&& arrives(p.waits[id]) ==> {
                &&& next.answer is Pending
                &&& next.state == Some(AcquireView::<T>::Waiting(id))
                &&& next.pool == (PoolView { waits: next.pool.waits, ..p })
                &&& next.pool.waits.len() == p.waits.len()
                &&& next.pool.waits.remove(id) == p.waits.remove(id)
                &&& arrives(next.pool.waits[id])
                &&& woken_by(next.pool.waits[id]) == Some(waker)
            }
        }),
{
    let next = progress(p, Some(AcquireView::Waiting(id)), start, now, waker);
    assert(after_look(p, id, waker).waits.remove(id) =~= p.waits.remove(id));
}

/// A request that is given up loses nothing. A resource that it had, or that was sent
/// to it, is put by for the next unless it is not good or a hook objects; work that was
/// under way goes on in the background; and nothing is sent to it any more.
pub proof fn law_given_up_loses_nothing<T, W, R: Fn(T, ResourceInfo) -> (T, bool)>(
    p: PoolView<T, W>,
    hook: Option<R>,
    state: AcquireView<T>,
    now: u128,
    post: PoolView<T, W>,
)
    requires
        request_dropped(p, hook, Some(state), now, post),
        agrees(hook),
        state matches AcquireView::Waiting(id) ==> 0 <= id < p.waits.len() && wait_inv(
            p.waits[id],
        ),
    ensures
        match state {
            AcquireView::Init => post == p,
            AcquireView::Resolve(resolve) => handed_back(p, hook, resolve, now, post)
                && post.waits == p.waits,
            AcquireView::Waiting(id) => {
                &&& post.waits.len() == p.waits.len()
                &&& post.waits.remove(id) == p.waits.remove(id)
                &&& !arrives(post.waits[id])
                &&& match attempt(p.waits[id].shot, true) {
                    Attempt::Ready(Ok(resolve)) => handed_back(p, hook, resolve, now, post),
                    _ => post == (PoolView { waits: post.waits, ..p }),
                }
            },
        },
{
    if let AcquireView::Resolve(resolve) = state {
        lemma_handed_back(p, hook, resolve, now, post);
    }
    if let AcquireView::Waiting(id) = state {
        let left = PoolView { waits: p.waits.update(id, after_leave(p.waits[id])), ..p };
        assert(left.waits.remove(id) =~= p.waits.remove(id));
        if let Some(resolve) = taken_by_cancel(p.waits[id].shot) {
            lemma_handed_back(left, hook, resolve, now, post);
        }
    }
}

/// Check that what a request had is where it can be found.
pub open spec fn handed_back<T, W, R: Fn(T, ResourceInfo) -> (T, bool)>(
    p: PoolView<T, W>,
    hook: Option<R>,
    resolve: Resolve<T>,
    now: u128,
    post: PoolView<T, W>,
) -> bool {
    match resolve {
        ResourceResolve::Future(operation) => post == (PoolView {
            waits: post.waits,
            spawned: p.spawned.push(operation),
            ..p
        }),
        ResourceResolve::Resource(None) => post == (PoolView { waits: post.waits, ..p }),
        ResourceResolve::Resource(Some(guard)) => {
            &&& post == (PoolView { waits: post.waits, shared: post.shared, ..p })
            &&& known(p.shared.cells, guard@.lock) && guard@.value is Some
                && (guard@.info.reusable || p.shared.busy) ==> exists|value: T|
                #[trigger]
                put_by(p.shared, guard@.lock, guard@.info, value, now, post.shared) && (hook
                    is None ==> value == guard@.value->0)
        },
    }
}

proof fn lemma_handed_back<T, W, R: Fn(T, ResourceInfo) -> (T, bool)>(
    p: PoolView<T, W>,
    hook: Option<R>,
    resolve: Resolve<T>,
    now: u128,
    post: PoolView<T, W>,
)
    requires
        resolve_dropped(p, hook, resolve, now, post),
        agrees(hook),
    ensures
        handed_back(p, hook, resolve, now, post),
        post.waits == p.waits,
{
    if let ResourceResolve::Resource(Some(guard)) = resolve {
        if known(p.shared.cells, guard@.lock) && guard@.value is Some && (guard@.info.reusable
            || p.shared.busy) {
            law_good_resource_is_kept(p.shared, hook, guard@, now, post.shared);
        }
    }
}

/// A resource that was created has the value that was made, and the time.
pub proof fn law_completed_has_the_value<T>(guard: Access<T>, value: T, now: u128)
    ensures
        completed(guard, Done::Created(value), now) == (GuardView {
            lock: guard.lock,
            info: ResourceInfo { created_at: Some(now), ..guard.info },
            value: Some(value),
        }),
{
}

/// What a request is answered is what its maker learns.
pub proof fn law_answer_is_passed_on<T, E>(r: AcquirePoll<T, E>, answer: Answer<T>)
    requires
        answers(r, answer),
    ensures
        r matches AcquirePoll::Ready(Ok(managed)) ==> answer == Answer::Granted(managed@),
        r matches AcquirePoll::Ready(Err(error)) ==> (answer is Closed && error is Stopped) || (
        answer is Timeout && error is Timeout),
        r is Pending ==> answer is Pending,
        r is Evaluate ==> answer is Evaluate,
{
}

} // verus!
