//! What becomes of a resource that is returned, or that nobody uses.

use vstd::prelude::*;

use crate::pool::model::{
    after_manager_detach, after_note, timer_expires, timer_known, timers_expire, with_mgr, Access,
    PoolView, Timer,
};
use crate::resource::info::ResourceInfo;
use crate::resource::lock::{known, ready, Cell, GuardView, ResourceGuard, ResourceLock};
use crate::resource::operation::{Operation, Work};
use crate::resource::repo::{lemma_filter, other_than};
use crate::shared::{
    after_return, hook_says, may_keep, released, returned, SharedEvent, SharedView,
};
use crate::timers::TimerEntry;

verus! {

broadcast use {
    ResourceLock::lemma_at,
    ResourceLock::lemma_same,
    ResourceGuard::lemma_of,
    ResourceGuard::lemma_view,
};

/// Check that a hook, if there is one, wants every resource to be kept.
pub open spec fn agrees<T, R: Fn(T, ResourceInfo) -> (T, bool)>(hook: Option<R>) -> bool {
    hook is Some ==> forall|value: T, info: ResourceInfo, result: (T, bool)| #[trigger]
        hook->0.ensures((value, info), result) ==> result.1
}

/// Check that a resource lies ready behind a lock for the next user, and that
/// nothing else has changed.
pub open spec fn put_by<T>(
    s: SharedView<T>,
    lock: ResourceLock,
    info: ResourceInfo,
    value: T,
    now: u128,
    post: SharedView<T>,
) -> bool {
    let verify_at = match s.idle_timeout {
        Some(wait) => Some((now + wait) as u128),
        None => None,
    };
    let kept = ResourceInfo { last_idle: Some(now), verify_at, ..info };
    &&& post.cells == s.cells.update(lock.id(), Cell::Free(kept, Some(value)))
    &&& post.idle == s.idle.push(lock)
    &&& post.events == (if verify_at is Some {
        s.events.push(SharedEvent::Verify(verify_at->0, lock))
    } else {
        s.events
    })
    &&& post.notified
    &&& post.count == s.count
    &&& post.disposed == s.disposed
    &&& post.dispose_count == s.dispose_count
    &&& post.waiter_count == s.waiter_count
    &&& post.min_count == s.min_count
    &&& post.max_count == s.max_count
    &&& post.max_waiters == s.max_waiters
    &&& post.idle_timeout == s.idle_timeout
}

/// Check that a resource is gone, that whoever wants to see it does, and that
/// nothing else has changed.
pub open spec fn thrown_out<T>(
    s: SharedView<T>,
    lock: ResourceLock,
    info: ResourceInfo,
    value: Option<T>,
    post: SharedView<T>,
) -> bool {
    &&& post.cells == s.cells.update(lock.id(), Cell::Free(info, None))
    &&& post.idle == s.idle
    &&& post.events == s.events
    &&& post.notified
    &&& s.count > 0 ==> post.count == s.count - 1
    &&& value is Some ==> post.disposed == s.disposed.push((value->0, info))
    &&& value is None ==> post.disposed == s.disposed
    &&& s.dispose_count < usize::MAX ==> post.dispose_count == s.dispose_count + 1
    &&& post.waiter_count == s.waiter_count
    &&& post.min_count == s.min_count
    &&& post.max_count == s.max_count
    &&& post.max_waiters == s.max_waiters
    &&& post.idle_timeout == s.idle_timeout
}

/// A resource that may be used again is kept for the next user when it is returned,
/// unless a hook objects, however many there are, may be or have to be. So is any
/// resource while somebody waits, and one that is needed to keep the minimum.
pub proof fn law_good_resource_is_kept<T, R: Fn(T, ResourceInfo) -> (T, bool)>(
    s: SharedView<T>,
    hook: Option<R>,
    guard: Access<T>,
    now: u128,
    post: SharedView<T>,
)
    requires
        known(s.cells, guard.lock),
        guard.value is Some,
        !guard.info.expired,
        guard.info.reusable || s.waiter_count > 0 || 0 < s.count <= s.min_count,
        agrees(hook),
        released(s, hook, guard, now, post),
    ensures
        exists|value: T| #[trigger]
            put_by(s, guard.lock, guard.info, value, now, post) && (hook is None ==> value
                == guard.value->0) && (hook is Some ==> hook->0.ensures(
                (guard.value->0, ResourceInfo { last_idle: Some(now), ..guard.info }),
                (value, true),
            )),
{
    let back = returned(guard, now);
    assert(may_keep(s, back));
    let result = choose|result: (T, bool)| #[trigger]
        hook_says(hook, back.value->0, back.info, result) && post == after_return(
            s,
            GuardView { value: Some(result.0), ..back },
            result.1,
            now,
        );
    assert(result.1);
    assert(put_by(s, guard.lock, guard.info, result.0, now, post));
}

/// A resource that is gone, or that has expired, is disposed of when it is returned.
/// So is one that is not to be used again while nobody waits, if there are more than
/// enough or no minimum is set.
pub proof fn law_bad_resource_is_disposed_of<T, R: Fn(T, ResourceInfo) -> (T, bool)>(
    s: SharedView<T>,
    hook: Option<R>,
    guard: Access<T>,
    now: u128,
    post: SharedView<T>,
)
    requires
        guard.value is None || guard.info.expired || (!guard.info.reusable && s.waiter_count == 0
            && (s.min_count == 0 || s.count > s.min_count)),
        released(s, hook, guard, now, post),
    ensures
        thrown_out(
            s,
            guard.lock,
            ResourceInfo { last_idle: Some(now), ..guard.info },
            guard.value,
            post,
        ),
{
}

/// A resource to which a hook objects is disposed of when it is returned, as the
/// hook left it.
pub proof fn law_hook_has_the_last_word<T, R: Fn(T, ResourceInfo) -> (T, bool)>(
    s: SharedView<T>,
    hook: R,
    guard: Access<T>,
    now: u128,
    post: SharedView<T>,
)
    requires
        guard.value is Some,
        !guard.info.expired,
        guard.info.reusable || s.waiter_count > 0 || 0 < s.count <= s.min_count,
        forall|value: T, info: ResourceInfo, result: (T, bool)| #[trigger]
            hook.ensures((value, info), result) ==> !result.1,
        released(s, Some(hook), guard, now, post),
    ensures
        exists|value: T| #[trigger]
            hook.ensures(
                (guard.value->0, ResourceInfo { last_idle: Some(now), ..guard.info }),
                (value, false),
            ) && thrown_out(
                s,
                guard.lock,
                ResourceInfo { last_idle: Some(now), ..guard.info },
                Some(value),
                post,
            ),
{
    let back = returned(guard, now);
    assert(may_keep(s, back));
    let result = choose|result: (T, bool)| #[trigger]
        hook_says(Some(hook), back.value->0, back.info, result) && post == after_return(
            s,
            GuardView { value: Some(result.0), ..back },
            result.1,
            now,
        );
    assert(!result.1);
    assert(result == (result.0, false));
}

/// When nobody has used a resource up to the time of its timer, it moves to a new
/// lock. In a pool that verifies it is verified if it may be used again and there are
/// not more than the minimum; otherwise it is disposed of. So the number of resources
/// of a pool that verifies does not fall below the minimum.
pub proof fn law_unused_is_verified_or_disposed_of<
    T,
    W,
    R: Fn(T, ResourceInfo) -> (T, bool),
>(
    p: PoolView<T, W>,
    hook: Option<R>,
    at: u128,
    number: usize,
    lock: ResourceLock,
    info: ResourceInfo,
    value: T,
    now: u128,
    post: PoolView<T, W>,
)
    requires
        known(p.shared.cells, lock),
        p.shared.cells.len() < usize::MAX,
        p.shared.cells[lock.id()] == Cell::Free(info, Some(value)),
        info.verify_at == Some(at),
        timer_expires(p, hook, (at, number, Timer::Verify(lock)), now, post),
    ensures
        ({
            let next = ResourceLock::at(p.shared.cells.len() as usize);
            let needed = p.verify && info.reusable && p.shared.count <= p.shared.min_count;
            let moved = p.shared.cells.update(lock.id(), Cell::Free(info, None));
            &&& needed ==> {
                &&& post.spawned == p.spawned.push(
                    Operation {
                        work: Work::Verify,
                        guard: ResourceGuard::of(
                            GuardView { lock: next, info, value: Some(value) },
                        ),
                    },
                )
                &&& post.shared == (SharedView { cells: moved.push(Cell::Held), ..p.shared })
            }
            &&& !needed ==> {
                &&& post.spawned == p.spawned
                &&& thrown_out(
                    SharedView { cells: moved.push(Cell::Held), ..p.shared },
                    next,
                    info,
                    Some(value),
                    post.shared,
                )
            }
            &&& !post.mgr.repo.contains(lock)
            &&& post.waits == p.waits
            &&& post.mgr.waiters == p.mgr.waiters
            &&& post.mgr.timers == p.mgr.timers
        }),
        p.verify && info.reusable && p.shared.count >= p.shared.min_count ==> post.shared.count
            >= post.shared.min_count,
{
    lemma_filter(p.mgr.repo, other_than(lock));
    let moved = after_manager_detach(p, lock);
    assert(moved.shared.cells =~= p.shared.cells.update(lock.id(), Cell::Free(info, None)).push(
        Cell::Held,
    ));
    if post.mgr.repo.contains(lock) {
        let i = choose|i: int| 0 <= i < post.mgr.repo.len() && post.mgr.repo[i] == lock;
        assert(moved.mgr.repo[i] == lock);
    }
}

/// When a resource was used after its timer was set, it is put by again behind a new
/// lock, unless a hook objects. Nothing is disposed of.
pub proof fn law_used_since_is_put_by_again<T, W, R: Fn(T, ResourceInfo) -> (T, bool)>(
    p: PoolView<T, W>,
    hook: Option<R>,
    at: u128,
    number: usize,
    lock: ResourceLock,
    info: ResourceInfo,
    value: T,
    now: u128,
    post: PoolView<T, W>,
)
    requires
        known(p.shared.cells, lock),
        p.shared.cells.len() < usize::MAX,
        p.shared.cells[lock.id()] == Cell::Free(info, Some(value)),
        info.verify_at != Some(at),
        info.reusable,
        !info.expired,
        agrees(hook),
        timer_expires(p, hook, (at, number, Timer::Verify(lock)), now, post),
    ensures
        ({
            let next = ResourceLock::at(p.shared.cells.len() as usize);
            let cells = p.shared.cells.update(lock.id(), Cell::Free(info, None)).push(Cell::Held);
            &&& exists|left: T| #[trigger]
                put_by(
                    SharedView { cells, ..p.shared },
                    next,
                    info,
                    left,
                    now,
                    post.shared,
                ) && (hook is None ==> left == value)
            &&& post.mgr.repo.contains(next)
            &&& post.spawned == p.spawned
            &&& post.waits == p.waits
            &&& post.mgr.waiters == p.mgr.waiters
            &&& post.mgr.timers == p.mgr.timers
        }),
{
    let guard = GuardView {
        lock: ResourceLock::at(p.shared.cells.len() as usize),
        info,
        value: Some(value),
    };
    let moved = after_manager_detach(p, lock);
    let noted = with_mgr(moved, after_note(moved.mgr, guard.lock));
    assert(moved.shared.cells =~= p.shared.cells.update(lock.id(), Cell::Free(info, None)).push(
        Cell::Held,
    ));
    law_good_resource_is_kept(noted.shared, hook, guard, now, post.shared);
    let repo = moved.mgr.repo;
    if !repo.contains(guard.lock) {
        assert(repo.push(guard.lock)[repo.len() as int] == guard.lock);
    }
}

/// A timer of a resource that is in use, or gone, changes nothing.
pub proof fn law_timer_of_nothing_is_ignored<T, W, R: Fn(T, ResourceInfo) -> (T, bool)>(
    p: PoolView<T, W>,
    hook: Option<R>,
    at: u128,
    number: usize,
    lock: ResourceLock,
    now: u128,
    post: PoolView<T, W>,
)
    requires
        known(p.shared.cells, lock),
        p.shared.cells[lock.id()] matches Cell::Free(_, value) ==> value is None,
        timer_expires(p, hook, (at, number, Timer::Verify(lock)), now, post),
    ensures
        post == p,
{
}

/// Check that all resources that are not in use may be used again.
pub open spec fn all_good<T>(cells: Seq<Cell<ResourceInfo, T>>) -> bool {
    forall|i: int|
        0 <= i < cells.len() ==> (#[trigger] cells[i] matches Cell::Free(info, Some(_))
            ==> info.reusable && !info.expired)
}

/// Timers do not take the number of resources below the minimum, in a pool that
/// verifies and whose resources may all be used again.
pub proof fn law_timers_leave_the_minimum<T, W, R: Fn(T, ResourceInfo) -> (T, bool)>(
    p: PoolView<T, W>,
    hook: Option<R>,
    entries: Seq<TimerEntry<Timer>>,
    now: u128,
    post: PoolView<T, W>,
)
    requires
        p.verify,
        all_good(p.shared.cells),
        agrees(hook),
        p.shared.cells.len() + entries.len() <= usize::MAX,
        forall|i: int| 0 <= i < entries.len() ==> timer_known(p, (#[trigger] entries[i]).2),
        timers_expire(p, hook, entries, now, post),
    ensures
        post.shared.min_count == p.shared.min_count,
        post.shared.count <= p.shared.count,
        p.shared.count >= p.shared.min_count ==> post.shared.count >= p.shared.min_count,
        p.shared.count < p.shared.min_count ==> post.shared.count == p.shared.count,
        all_good(post.shared.cells),
        post.verify,
        p.shared.cells.len() <= post.shared.cells.len() <= p.shared.cells.len() + entries.len(),
        post.waits.len() == p.waits.len(),
        post.drains.len() == p.drains.len(),
    decreases entries.len(),
{
    if entries.len() > 0 {
        let rest = entries.drop_last();
        let entry = entries.last();
        let mid = choose|mid: PoolView<T, W>|
            timers_expire(p, hook, rest, now, mid) && #[trigger] timer_expires(
                mid,
                hook,
                entry,
                now,
                post,
            );
        assert forall|i: int| 0 <= i < rest.len() implies timer_known(
            p,
            (#[trigger] rest[i]).2,
        ) by {
            assert(rest[i] == entries[i]);
        }
        law_timers_leave_the_minimum(p, hook, rest, now, mid);
        assert(timer_known(p, entries[entries.len() - 1].2));
        if let Timer::Verify(lock) = entry.2 {
            if ready(mid.shared.cells, lock) {
                let info = mid.shared.cells[lock.id()]->Free_0;
                let value = mid.shared.cells[lock.id()]->Free_1->0;
                assert(mid.shared.cells[lock.id()] == Cell::Free(info, Some(value)));
                assert(entry == (entry.0, entry.1, Timer::Verify(lock)));
                if info.verify_at == Some(entry.0) {
                    law_unused_is_verified_or_disposed_of(
                        mid,
                        hook,
                        entry.0,
                        entry.1,
                        lock,
                        info,
                        value,
                        now,
                        post,
                    );
                } else {
                    law_used_since_is_put_by_again(
                        mid,
                        hook,
                        entry.0,
                        entry.1,
                        lock,
                        info,
                        value,
                        now,
                        post,
                    );
                }
            }
        }
    }
}

} // verus!
