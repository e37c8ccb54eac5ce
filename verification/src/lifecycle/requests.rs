//! What comes of a request for a resource.

use vstd::prelude::*;

use crate::arp::model::Register;
use crate::lifecycle::acquire::{
    after_drop_request, answers, created, progress, AcquirePoll, AcquireView, Answer, Progress,
};
use crate::lifecycle::info::ResourceInfo;
use crate::lifecycle::model::{after_idle, after_look, after_try_wait, Access, PoolView};
use crate::lifecycle::queue::{after_release, QueueEvent, QueueView};
use crate::pool::requests::{lemma_first, lemma_none};
use crate::resource::lock::{ready, Cell, GuardView, ResourceGuard, ResourceLock};
use crate::resource::operation::{Operation, ResourceResolve, Work};
use crate::shared::live_idle;
use crate::wait::{arrives, wait_inv, woken_by, WaitResponder};

verus! {

broadcast use {
    ResourceLock::lemma_at,
    ResourceLock::lemma_same,
    ResourceGuard::lemma_of,
    ResourceGuard::lemma_view,
};

/// What is known about a resource that is borrowed once more.
pub open spec fn once_more(info: ResourceInfo, now: u128) -> ResourceInfo {
    ResourceInfo {
        borrow_count: if info.borrow_count == usize::MAX {
            0
        } else {
            (info.borrow_count + 1) as usize
        },
        last_borrow: Some(now),
        ..info
    }
}

/// While nobody waits, a new request is granted the resource that was returned first,
/// as it was returned. Nothing is created, however many there may be.
pub proof fn law_returned_is_reused<T, W>(
    p: PoolView<T, W>,
    k: int,
    info: ResourceInfo,
    value: T,
    now: u128,
)
    requires
        !p.queue.busy,
        0 <= k < p.queue.idle.len(),
        p.queue.cells[p.queue.idle[k].id()] == Cell::Free(info, Some(value)),
        forall|i: int|
            0 <= i < k ==> !(p.queue.cells[(#[trigger] p.queue.idle[i]).id()] matches Cell::Free(
                _,
                Some(_),
            )),
    ensures
        progress(p, Some(AcquireView::Init), now) == (Progress {
            pool: PoolView {
                queue: QueueView {
                    idle: p.queue.idle.skip(k + 1),
                    cells: p.queue.cells.update(p.queue.idle[k].id(), Cell::Held),
                    ..p.queue
                },
                ..p
            },
            state: None,
            answer: Answer::Granted(
                GuardView {
                    lock: p.queue.idle[k],
                    info: once_more(info, now),
                    value: Some(value),
                },
            ),
        }),
{
    let s = p.queue;
    assert forall|i: int| 0 <= i < k implies !ready(s.cells, #[trigger] s.idle[i]) by {}
    lemma_first(s.idle, s.cells, k);
    assert(s.idle.skip(k).drop_first() =~= s.idle.skip(k + 1));
}

/// What is shared when a request finds nothing: what has nothing to offer is dropped,
/// unless others wait.
pub open spec fn looked_over<T>(s: QueueView<T>) -> QueueView<T> {
    QueueView {
        idle: if s.busy {
            s.idle
        } else {
            Seq::empty()
        },
        ..s
    }
}

/// A new request that finds nothing, or comes while others wait, starts the creation of
/// one resource, which counts from now on, if there is no limit or it has not been
/// reached. Otherwise it has to ask again.
pub proof fn law_created_if_nothing_is_found<T, W>(p: PoolView<T, W>, now: u128)
    requires
        p.queue.busy || forall|i: int|
            0 <= i < p.queue.idle.len() ==> !(
            p.queue.cells[(#[trigger] p.queue.idle[i]).id()] matches Cell::Free(_, Some(_))),
        p.queue.count < usize::MAX,
        p.queue.cells.len() < usize::MAX,
    ensures
        ({
            let lock = ResourceLock::at(p.queue.cells.len() as usize);
            let info = ResourceInfo {
                start: now,
                created_at: None,
                borrow_count: 0,
                last_borrow: None,
                last_idle: None,
                verify_at: None,
            };
            let next = progress(p, Some(AcquireView::Init), now);
            let full = p.queue.max_count is Some && p.queue.count >= p.queue.max_count->0;
            &&& !full ==> next == (Progress {
                pool: PoolView {
                    queue: QueueView {
                        count: (p.queue.count + 1) as usize,
                        cells: p.queue.cells.push(Cell::Held),
                        events: p.queue.events.push(QueueEvent::Created(lock)),
                        notified: true,
                        ..looked_over(p.queue)
                    },
                    ..p
                },
                state: Some(
                    AcquireView::Resolve(
                        ResourceResolve::Future(
                            Operation {
                                work: Work::Create,
                                guard: ResourceGuard::of(GuardView { lock, info, value: None }),
                            },
                        ),
                    ),
                ),
                answer: Answer::Evaluate,
            })
            &&& full ==> next == (Progress {
                pool: PoolView { queue: looked_over(p.queue), ..p },
                state: Some(AcquireView::Init),
                answer: Answer::Again,
            })
        }),
{
    let s = p.queue;
    if !s.busy {
        assert forall|i: int| 0 <= i < s.idle.len() implies !ready(s.cells, #[trigger] s.idle[i]) by {
        }
        lemma_none(s.idle, s.cells);
        assert(live_idle(s.idle, s.cells) =~= Seq::empty());
    }
    assert(after_idle(s) == looked_over(s));
}

/// A request for which a resource has come is granted that resource, and nothing else
/// changes. One for which a resource is being created goes on. One that was answered is
/// not answered again.
pub proof fn law_found_is_granted<T, W>(
    p: PoolView<T, W>,
    guard: Access<T>,
    operation: Operation<ResourceInfo, T>,
    now: u128,
)
    ensures
        progress(
            p,
            Some(AcquireView::Resolve(ResourceResolve::Resource(Some(ResourceGuard::of(guard))))),
            now,
        ) == (Progress { pool: p, state: None, answer: Answer::Granted(guard) }),
        ({
            let waiting = Some(AcquireView::Resolve(ResourceResolve::Future(operation)));
            progress(p, waiting, now) == (Progress {
                pool: p,
                state: waiting,
                answer: Answer::Evaluate,
            })
        }),
        progress(p, None, now) == (Progress { pool: p, state: None, answer: Answer::Stopped }),
{
}

/// A request that is given up loses nothing: a resource that it had is returned, and work
/// that was under way goes on in the background.
pub proof fn law_given_up_loses_nothing<T, W>(
    p: PoolView<T, W>,
    guard: Access<T>,
    operation: Operation<ResourceInfo, T>,
    now: u128,
)
    ensures
        after_drop_request(
            p,
            Some(AcquireView::Resolve(ResourceResolve::Resource(Some(ResourceGuard::of(guard))))),
            now,
        ) == (PoolView { queue: after_release(p.queue, guard, now), ..p }),
        after_drop_request(
            p,
            Some(AcquireView::Resolve(ResourceResolve::Future(operation))),
            now,
        ) == (PoolView { spawned: p.spawned.push(operation), ..p }),
        after_drop_request(p, Some(AcquireView::Init), now) == p,
        after_drop_request(p, None, now) == p,
{
}

/// A resource that was created has the value that was made, and the time.
pub proof fn law_completed_has_the_value<T>(guard: Access<T>, value: T, now: u128)
    ensures
        created(guard, value, now) == (GuardView {
            lock: guard.lock,
            info: ResourceInfo { created_at: Some(now), ..guard.info },
            value: Some(value),
        }),
{
}

/// Whoever waits is put down, with the time, behind those who asked before, and the
/// manager is told to look. The one who waits is woken by what comes for them, however
/// often they have looked.
pub proof fn law_wait_is_put_down<T, W>(p: PoolView<T, W>, started: u128, first: W, second: W)
    requires
        p.waits.len() < usize::MAX,
    ensures
        ({
            let to = WaitResponder::at(p.waits.len() as usize);
            let id = p.waits.len() as int;
            let post = after_try_wait(p, started);
            let looked = after_look(after_look(post, id, first), id, second);
            &&& post == (PoolView {
                registers: p.registers.push(Register::Waiter(started, to)),
                queue: QueueView { notified: true, ..p.queue },
                waits: post.waits,
                ..p
            })
            &&& post.waits.len() == p.waits.len() + 1
            &&& post.waits.drop_last() == p.waits
            &&& wait_inv(post.waits[id]) && arrives(post.waits[id])
            &&& woken_by(looked.waits[id]) == Some(second)
            &&& looked == (PoolView { waits: looked.waits, ..post })
            &&& looked.waits.drop_last() == p.waits
        }),
{
    let post = after_try_wait(p, started);
    let id = p.waits.len() as int;
    let looked = after_look(after_look(post, id, first), id, second);
    assert(post.waits.drop_last() =~= p.waits);
    assert(looked.waits.drop_last() =~= p.waits);
}

/// What a request is answered is what its maker learns.
pub proof fn law_answer_is_passed_on<T, E>(r: AcquirePoll<T, E>, answer: Answer<T>)
    requires
        answers(r, answer),
    ensures
        r matches AcquirePoll::Ready(Ok(managed)) ==> answer == Answer::Granted(managed@),
        r matches AcquirePoll::Ready(Err(error)) ==> answer is Stopped && error is Stopped,
        r is Again ==> answer is Again,
        r is Evaluate ==> answer is Evaluate,
{
}

} // verus!
