//! What becomes of a resource that is returned, or that nobody uses.

use vstd::prelude::*;

use crate::arp::model::Timer;
use crate::lifecycle::info::ResourceInfo;
use crate::lifecycle::model::{after_manager_detach, after_timer, Access, PoolView};
use crate::lifecycle::queue::{after_release, QueueEvent, QueueView};
use crate::resource::lock::{known, Cell, GuardView, ResourceGuard, ResourceLock};
use crate::resource::operation::{Operation, Work};
use crate::resource::repo::{lemma_filter, other_than};

verus! {

broadcast use {
    ResourceLock::lemma_at,
    ResourceLock::lemma_same,
    ResourceGuard::lemma_of,
    ResourceGuard::lemma_view,
};

/// A resource that is returned stays behind its lock, with the time. It is put by for
/// the next user if there is a time for which it may be unused, after which it is looked
/// after, or if somebody waits. A resource that is gone is no longer counted, and the
/// manager learns of it. Nothing else changes.
pub proof fn law_returned_is_put_by<T>(s: QueueView<T>, guard: Access<T>, now: u128)
    ensures
        ({
            let post = after_release(s, guard, now);
            let at = (now + s.idle_timeout->0) as u128;
            &&& guard.value is Some ==> post == (QueueView {
                cells: s.cells.update(
                    guard.lock.id(),
                    Cell::Free(
                        ResourceInfo {
                            last_idle: Some(now),
                            verify_at: if s.idle_timeout is Some {
                                Some(at)
                            } else {
                                None
                            },
                            ..guard.info
                        },
                        guard.value,
                    ),
                ),
                idle: if s.idle_timeout is Some || s.busy {
                    s.idle.push(guard.lock)
                } else {
                    s.idle
                },
                events: if s.idle_timeout is Some {
                    s.events.push(QueueEvent::Verify(at, guard.lock))
                } else {
                    s.events
                },
                notified: true,
                ..s
            })
            &&& guard.value is None && s.count > 0 ==> post == (QueueView {
                cells: s.cells.update(guard.lock.id(), Cell::Free(guard.info, None)),
                count: (s.count - 1) as usize,
                events: s.events.push(QueueEvent::Disposed(guard.lock)),
                notified: true,
                ..s
            })
        }),
{
}

/// When nobody has used a resource up to the time of its timer, it moves to a new
/// lock. If there are more than are kept it goes to the handler that disposes of it;
/// otherwise to the one that keeps it alive. Without the handler that keeps it alive it
/// goes to the other, and without that one it stays behind its new lock.
pub proof fn law_unused_is_looked_after<T, W>(
    p: PoolView<T, W>,
    at: u128,
    number: usize,
    lock: ResourceLock,
    info: ResourceInfo,
    value: T,
    now: u128,
)
    requires
        known(p.queue.cells, lock),
        p.queue.cells.len() < usize::MAX,
        p.queue.cells[lock.id()] == Cell::Free(info, Some(value)),
        info.verify_at == Some(at),
    ensures
        ({
            let post = after_timer(p, (at, number, Timer::Verify(lock)), now);
            let next = ResourceLock::at(p.queue.cells.len() as usize);
            let moved = p.queue.cells.update(lock.id(), Cell::Free(info, None));
            let guard = ResourceGuard::of(GuardView { lock: next, info, value: Some(value) });
            let surplus = p.queue.count > p.queue.min_count;
            let kept = !surplus && p.handlers.keepalive;
            &&& kept ==> {
                &&& post.spawned == p.spawned.push(Operation { work: Work::Keepalive, guard })
                &&& post.queue == (QueueView { cells: moved.push(Cell::Held), ..p.queue })
            }
            &&& !kept && p.handlers.dispose ==> {
                &&& post.spawned == p.spawned.push(Operation { work: Work::Dispose, guard })
                &&& post.queue == (QueueView { cells: moved.push(Cell::Held), ..p.queue })
            }
            &&& !kept && !p.handlers.dispose ==> {
                &&& post.spawned == p.spawned
                &&& post.queue == (QueueView {
                    cells: moved.push(Cell::Free(info, Some(value))),
                    ..p.queue
                })
            }
            &&& !post.mgr.repo.contains(lock)
            &&& post.waits == p.waits
            &&& post.mgr.waiters == p.mgr.waiters
            &&& post.mgr.timers == p.mgr.timers
        }),
{
    let post = after_timer(p, (at, number, Timer::Verify(lock)), now);
    lemma_filter(p.mgr.repo, other_than(lock));
    let moved = after_manager_detach(p, lock);
    let left = p.queue.cells.update(lock.id(), Cell::Free(info, None));
    assert(moved.queue.cells =~= left.push(Cell::Held));
    assert(left.push(Cell::Held).update(left.len() as int, Cell::Free(info, Some(value)))
        =~= left.push(Cell::Free(info, Some(value))));
    if post.mgr.repo.contains(lock) {
        let i = choose|i: int| 0 <= i < post.mgr.repo.len() && post.mgr.repo[i] == lock;
        assert(moved.mgr.repo[i] == lock);
    }
}

/// When a resource was used after its timer was set, it is put by again behind a new
/// lock, as if it had just been returned.
pub proof fn law_used_since_is_put_by_again<T, W>(
    p: PoolView<T, W>,
    at: u128,
    number: usize,
    lock: ResourceLock,
    info: ResourceInfo,
    value: T,
    now: u128,
)
    requires
        known(p.queue.cells, lock),
        p.queue.cells.len() < usize::MAX,
        p.queue.cells[lock.id()] == Cell::Free(info, Some(value)),
        info.verify_at != Some(at),
    ensures
        ({
            let post = after_timer(p, (at, number, Timer::Verify(lock)), now);
            let next = ResourceLock::at(p.queue.cells.len() as usize);
            let cells = p.queue.cells.update(lock.id(), Cell::Free(info, None)).push(Cell::Held);
            &&& post.queue == after_release(
                QueueView { cells, ..p.queue },
                GuardView { lock: next, info, value: Some(value) },
                now,
            )
            &&& post.mgr.repo.contains(next)
            &&& post.spawned == p.spawned
            &&& post.waits == p.waits
            &&& post.mgr.waiters == p.mgr.waiters
            &&& post.mgr.timers == p.mgr.timers
        }),
{
    let next = ResourceLock::at(p.queue.cells.len() as usize);
    let moved = after_manager_detach(p, lock);
    assert(moved.queue.cells =~= p.queue.cells.update(lock.id(), Cell::Free(info, None)).push(
        Cell::Held,
    ));
    let repo = moved.mgr.repo;
    if !repo.contains(next) {
        assert(repo.push(next)[repo.len() as int] == next);
    }
}

/// A timer of a resource that is in use changes nothing.
pub proof fn law_timer_of_used_is_ignored<T, W>(
    p: PoolView<T, W>,
    at: u128,
    number: usize,
    lock: ResourceLock,
    now: u128,
)
    requires
        known(p.queue.cells, lock),
        p.queue.cells[lock.id()] is Held,
    ensures
        after_timer(p, (at, number, Timer::Verify(lock)), now) == p,
{
}

} // verus!
