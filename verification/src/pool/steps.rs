//! What happens to a pool, one thing after the other.

use vstd::prelude::*;

use crate::pool::acquire::{
    after_failure, completed, from_guard, progress, request_dropped, AcquireView, Done,
};
use crate::pool::counts::{
    counted, law_completed_keeps_count, law_created_is_counted, law_disposed_is_not_counted,
    law_failed_is_not_counted, law_given_up_keeps_count, law_looked_for_keeps_count,
    law_manager_keeps_count, law_request_keeps_count, law_returned_is_counted, request_held,
};
use crate::pool::laws::law_max_count;
use crate::pool::model::{
    after_idle, after_try_create, after_verify_or_dispose, created_guard, fresh_pool, pool_inv,
    round, try_created, with_shared, Access, PoolView, Rest,
};
use crate::resource::info::ResourceInfo;
use crate::resource::lock::{held, lemma_allocated_len, Cell, ResourceGuard};
use crate::resource::operation::{Operation, ResourceResolve, Work};
use crate::shared::{fresh_shared, released};

verus! {

/// Something that happens to a pool.
pub ghost enum Step<T, W> {
    /// The creation of a resource is asked for.
    Create,
    /// A resource is looked for among those that were returned, at a time.
    Look(u128),
    /// A request that has come a certain way since a time is taken further, at a
    /// time.
    Request(Option<AcquireView<T>>, u128, u128, W),
    /// Work on a resource is completed, for a request since a time, at a time.
    Complete(Access<T>, Done<T>, u128, u128, W),
    /// Work on a resource fails.
    Fail(Access<T>),
    /// A resource is returned, at a time.
    Return(Access<T>, u128),
    /// A resource that was unused for too long is verified or disposed of.
    Retire(Access<T>),
    /// A request that has come a certain way is given up, at a time.
    GiveUp(Option<AcquireView<T>>, u128),
    /// The manager does a round at a time, and rests.
    Manage(u128, Rest),
    /// Something that is not about a resource.
    Other,
}

/// Check that there is room for the locks that may be needed.
pub open spec fn room_for_locks<T, W>(p: PoolView<T, W>) -> bool {
    &&& p.shared.cells.len() < usize::MAX
    &&& p.shared.cells.len() + p.mgr.timers.len() <= usize::MAX
}

/// Check that something that happens leads from one state of a pool to another.
/// Whatever is given back is out, as whoever has a resource has it alone.
pub open spec fn happens<T, W, R: Fn(T, ResourceInfo) -> (T, bool)>(
    p: PoolView<T, W>,
    hook: Option<R>,
    step: Step<T, W>,
    post: PoolView<T, W>,
) -> bool {
    match step {
        Step::Create => post == with_shared(p, after_try_create(p.shared)),
        Step::Look(now) => post == with_shared(p, after_idle(p.shared, p.verify, now)),
        Step::Request(state, start, now, waker) => {
            &&& request_held(p, state)
            &&& post == progress(p, state, start, now, waker).pool
        },
        Step::Complete(guard, done, start, now, waker) => {
            &&& held(p.shared.cells, guard.lock)
            &&& post == from_guard(p, completed(guard, done, now), start, now, waker).pool
        },
        Step::Fail(guard) => {
            &&& held(p.shared.cells, guard.lock)
            &&& post == after_failure(p, guard)
        },
        Step::Return(guard, now) => {
            &&& held(p.shared.cells, guard.lock)
            &&& released(p.shared, hook, guard, now, post.shared)
            &&& post == with_shared(p, post.shared)
        },
        Step::Retire(guard) => {
            &&& held(p.shared.cells, guard.lock)
            &&& post == after_verify_or_dispose(p, guard)
        },
        Step::GiveUp(state, now) => {
            &&& request_held(p, state)
            &&& request_dropped(p, hook, state, now, post)
        },
        Step::Manage(now, rest) => round(p, hook, now, post, rest),
        Step::Other => {
            &&& post.shared.cells == p.shared.cells
            &&& post.shared.count == p.shared.count
            &&& post.shared.max_count == p.shared.max_count
        },
    }
}

/// Check that things that happen, one after the other, lead from one state of a
/// pool to another.
pub open spec fn leads_to<T, W, R: Fn(T, ResourceInfo) -> (T, bool)>(
    p: PoolView<T, W>,
    hook: Option<R>,
    steps: Seq<Step<T, W>>,
    post: PoolView<T, W>,
) -> bool
    decreases steps.len(),
{
    if steps.len() == 0 {
        post == p
    } else {
        exists|mid: PoolView<T, W>|
            leads_to(p, hook, steps.drop_last(), mid) && pool_inv(mid) && room_for_locks(mid)
                && #[trigger] happens(mid, hook, steps.last(), post)
    }
}

/// Whatever happens to a pool, the number of resources stays right, and within its
/// limit.
pub proof fn law_step_keeps_count<T, W, R: Fn(T, ResourceInfo) -> (T, bool)>(
    p: PoolView<T, W>,
    hook: Option<R>,
    step: Step<T, W>,
    post: PoolView<T, W>,
)
    requires
        pool_inv(p),
        room_for_locks(p),
        counted(p.shared),
        happens(p, hook, step, post),
    ensures
        counted(post.shared),
        post.shared.max_count == p.shared.max_count,
{
    match step {
        Step::Create => law_created_is_counted(p.shared),
        Step::Look(now) => law_looked_for_keeps_count(p.shared, p.verify, now),
        Step::Request(state, start, now, waker) => {
            law_request_keeps_count(p, state, start, now, waker);
        },
        Step::Complete(guard, done, start, now, waker) => {
            law_completed_keeps_count(p, guard, done, start, now, waker);
        },
        Step::Fail(guard) => law_failed_is_not_counted(p, guard),
        Step::Return(guard, now) => {
            law_returned_is_counted(p.shared, hook, guard, now, post.shared);
        },
        Step::Retire(guard) => law_disposed_is_not_counted(p.shared, guard),
        Step::GiveUp(state, now) => law_given_up_keeps_count(p, hook, state, now, post),
        Step::Manage(now, rest) => law_manager_keeps_count(p, hook, now, post, rest),
        Step::Other => {},
    }
}

/// The limit that a pool was made with is never exceeded, whatever has happened to
/// it. The number of resources is right at any time. If another is asked for, exactly
/// one is created, unless there are as many as there may be, and then nothing
/// changes. There is no limit if it is zero.
pub proof fn law_limit_is_never_exceeded<T, W, R: Fn(T, ResourceInfo) -> (T, bool)>(
    min_count: usize,
    max_count: usize,
    max_waiters: Option<usize>,
    idle_timeout: Option<u128>,
    acquire_timeout: Option<u128>,
    verify: bool,
    hook: Option<R>,
    steps: Seq<Step<T, W>>,
    p: PoolView<T, W>,
    now: u128,
)
    requires
        leads_to(
            fresh_pool(
                fresh_shared(min_count, max_count, max_waiters, idle_timeout),
                acquire_timeout,
                verify,
            ),
            hook,
            steps,
            p,
        ),
        p.shared.cells.len() < usize::MAX,
    ensures
        counted(p.shared),
        p.shared.max_count == max_count,
        max_count > 0 ==> p.shared.count <= max_count,
        try_created(p.shared, now) == ResourceResolve::<ResourceInfo, T>::Resource(None)
            <==> max_count > 0 && p.shared.count == max_count,
        max_count > 0 && p.shared.count == max_count ==> after_try_create(p.shared)
            == p.shared,
        !(max_count > 0 && p.shared.count == max_count) ==> {
            &&& after_try_create(p.shared).count == p.shared.count + 1
            &&& after_try_create(p.shared).cells == p.shared.cells.push(Cell::Held)
            &&& try_created(p.shared, now) == ResourceResolve::Future(
                Operation {
                    work: Work::Create,
                    guard: ResourceGuard::of(created_guard(p.shared, now)),
                },
            )
        },
{
    lemma_stays_counted(
        fresh_pool(
            fresh_shared(min_count, max_count, max_waiters, idle_timeout),
            acquire_timeout,
            verify,
        ),
        hook,
        steps,
        p,
    );
    lemma_allocated_len(p.shared.cells);
    law_max_count(p.shared, now);
}

proof fn lemma_stays_counted<T, W, R: Fn(T, ResourceInfo) -> (T, bool)>(
    p: PoolView<T, W>,
    hook: Option<R>,
    steps: Seq<Step<T, W>>,
    post: PoolView<T, W>,
)
    requires
        counted(p.shared),
        leads_to(p, hook, steps, post),
    ensures
        counted(post.shared),
        post.shared.max_count == p.shared.max_count,
    decreases steps.len(),
{
    if steps.len() > 0 {
        let mid = choose|mid: PoolView<T, W>|
            leads_to(p, hook, steps.drop_last(), mid) && pool_inv(mid) && room_for_locks(mid)
                && #[trigger] happens(mid, hook, steps.last(), post);
        lemma_stays_counted(p, hook, steps.drop_last(), mid);
        law_step_keeps_count(mid, hook, steps.last(), post);
    }
}

} // verus!
