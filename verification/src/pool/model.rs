//! What a pool is, and what happens to it.

use vstd::prelude::*;

use crate::queue::{Coded, Entry};
use crate::resource::info::{acquired_info, fresh_info, ResourceInfo};
use crate::resource::lock::{
    after_detach, after_lock, known, ready, Cell, GuardView, ResourceGuard, ResourceLock,
};
use crate::resource::operation::{Operation, ResourceResolve, Work};
use crate::resource::repo::{occupied, with_lock, without_lock};
use crate::shared::{
    after_acquire, after_dispose, guard_at, in_time, later, live_idle, next_idle, released,
    returned, shared_inv, SharedEvent, SharedView,
};
use crate::timers::{after_insert, expired, numbered_up_to, ordered, remaining, TimerEntry};
use crate::wait::{
    after_cancel, after_poll_wait, after_reply, arrives, attended, awaited, fresh_wait, woken_by,
    WaitResponder, WaitView,
};

verus! {

/// A resource of a pool, or the prospect of one.
pub type Resolve<T> = ResourceResolve<ResourceInfo, T>;

/// A guard of a resource of a pool.
pub type Guard<T> = ResourceGuard<ResourceInfo, T>;

/// What a guard of a resource of a pool gives access to.
pub type Access<T> = GuardView<ResourceInfo, T>;

/// How far a pool has come.
#[derive(Clone, Copy, Debug, PartialEq, Eq, Structural)]
pub enum PoolState {
    /// It is in use.
    Active,
    /// It is being emptied.
    Drain,
    /// Nobody uses it any more.
    Shutdown,
    /// Its manager has stopped.
    Stopped,
}

/// A request to the manager.
#[derive(Clone, Copy, Debug, PartialEq, Eq, Structural)]
pub enum Register {
    /// Empty the pool up to a time.
    Drain(u128, WaitResponder),
    /// Find a resource for somebody who started to wait at a time.
    Waiter(u128, WaitResponder),
}

/// What the manager does at a time.
#[derive(Clone, Copy, Debug, PartialEq, Eq, Structural)]
pub enum Timer {
    /// Stop trying to empty the pool.
    Drain(WaitResponder),
    /// Verify a resource.
    Verify(ResourceLock),
    /// Call a wait off.
    Waiter(WaitResponder),
}

/// What the manager does after it went through everything.
#[derive(Clone, Copy, Debug, PartialEq, Eq, Structural)]
pub enum Rest {
    /// Wait for the next notification, up to a time if there is one.
    Wait(Option<u128>),
    /// Stop.
    Stop,
}

impl Coded for Register {
    open spec fn decoded(entry: Entry) -> Register {
        if entry.0 == 0 {
            Register::Drain(entry.1, WaitResponder::at(entry.2))
        } else {
            Register::Waiter(entry.1, WaitResponder::at(entry.2))
        }
    }

    fn encode(self) -> (r: Entry) {
        match self {
            Register::Drain(at, to) => (0, at, to.number()),
            Register::Waiter(at, to) => (1, at, to.number()),
        }
    }

    fn decode(entry: Entry) -> (r: Register) {
        if entry.0 == 0 {
            Register::Drain(entry.1, WaitResponder::numbered(entry.2))
        } else {
            Register::Waiter(entry.1, WaitResponder::numbered(entry.2))
        }
    }
}

/// What the manager remembers.
#[verifier::ext_equal]
pub ghost struct ManagerView {
    /// The number of requests to empty the pool that are under way.
    pub drain_count: usize,
    /// How often a resource had been disposed of when the manager last looked.
    pub last_dispose_count: usize,
    /// The locks of the resources of the pool.
    pub repo: Seq<ResourceLock>,
    /// The number of the timer that was set last.
    pub timer_id: usize,
    /// The timers.
    pub timers: Seq<TimerEntry<Timer>>,
    /// Those who wait for a resource, the one who waits longest in front.
    pub waiters: Seq<WaitResponder>,
}

/// A pool.
#[verifier::ext_equal]
pub ghost struct PoolView<T, W> {
    /// What its users and its manager share.
    pub shared: SharedView<T>,
    /// How long somebody may wait for a resource.
    pub acquire_timeout: Option<u128>,
    /// The requests to the manager.
    pub registers: Seq<Register>,
    /// How far the pool has come.
    pub state: PoolState,
    /// Whether resources are verified.
    pub verify: bool,
    /// The replies to those who wait for a resource.
    pub waits: Seq<WaitView<Resolve<T>, W>>,
    /// The replies to those who had the pool emptied.
    pub drains: Seq<WaitView<bool, W>>,
    /// The work that is to be done in the background.
    pub spawned: Seq<Operation<ResourceInfo, T>>,
    /// The wakers that are due.
    pub woken: Seq<W>,
    /// The number of handles.
    pub handles: usize,
    /// What the manager remembers.
    pub mgr: ManagerView,
}

/// The number of timers for emptying the pool.
pub open spec fn drain_timers(timers: Seq<TimerEntry<Timer>>) -> nat
    decreases timers.len(),
{
    if timers.len() == 0 {
        0
    } else if timers.last().2 is Drain {
        drain_timers(timers.drop_last()) + 1
    } else {
        drain_timers(timers.drop_last())
    }
}

/// The number of requests of those who wait for a resource.
pub open spec fn waiting_registers(registers: Seq<Register>) -> nat
    decreases registers.len(),
{
    if registers.len() == 0 {
        0
    } else if registers.last() is Waiter {
        waiting_registers(registers.drop_last()) + 1
    } else {
        waiting_registers(registers.drop_last())
    }
}

/// Check that what a timer is about is there.
pub open spec fn timer_known<T, W>(p: PoolView<T, W>, timer: Timer) -> bool {
    match timer {
        Timer::Drain(to) => awaited(p.drains, to),
        Timer::Verify(lock) => known(p.shared.cells, lock),
        Timer::Waiter(to) => awaited(p.waits, to),
    }
}

/// Check that what a request is about is there, and its time can be told.
pub open spec fn register_known<T, W>(p: PoolView<T, W>, register: Register) -> bool {
    match register {
        Register::Drain(_, to) => awaited(p.drains, to),
        Register::Waiter(start, to) => awaited(p.waits, to) && in_time(start, p.acquire_timeout),
    }
}

/// Check that the lock of a resource, or of the prospect of one, is in the store.
pub open spec fn resolve_known<I, T>(
    cells: Seq<Cell<I, T>>,
    resolve: ResourceResolve<I, T>,
) -> bool {
    match resolve {
        ResourceResolve::Resource(Some(guard)) => known(cells, guard@.lock),
        ResourceResolve::Resource(None) => true,
        ResourceResolve::Future(operation) => known(cells, operation.guard@.lock),
    }
}

/// Check that the lock of a resource that somebody was sent is in the store.
pub open spec fn reply_known<I, T, W>(
    cells: Seq<Cell<I, T>>,
    wait: WaitView<ResourceResolve<I, T>, W>,
) -> bool {
    wait.shot.data is Some ==> resolve_known(cells, wait.shot.data->0)
}

/// Check that nothing that was handed out becomes invalid: locks stay in the
/// store, and whoever waits can go on waiting.
pub open spec fn extends<T, W>(p: PoolView<T, W>, q: PoolView<T, W>) -> bool {
    &&& p.shared.cells.len() <= q.shared.cells.len()
    &&& p.waits.len() <= q.waits.len()
    &&& p.drains.len() <= q.drains.len()
    &&& forall|i: int|
        0 <= i < p.waits.len() && attended(#[trigger] p.waits[i]) ==> attended(q.waits[i])
    &&& forall|i: int|
        0 <= i < p.drains.len() && attended(#[trigger] p.drains[i]) ==> attended(q.drains[i])
}

/// What holds of a pool at all times.
///
/// Everything that is waiting somewhere is there, the timers are in order, a
/// request to empty the pool is under way for each of its timers, and everyone
/// who waits for a resource is counted.
pub open spec fn pool_inv<T, W>(p: PoolView<T, W>) -> bool {
    pool_inv_amid(p, 0)
}

/// What holds of a pool while a number of timers for emptying it have expired
/// and are not dealt with.
pub open spec fn pool_inv_amid<T, W>(p: PoolView<T, W>, expired: nat) -> bool {
    &&& shared_inv(p.shared)
    &&& forall|i: int|
        0 <= i < p.registers.len() ==> register_known(p, #[trigger] p.registers[i])
    &&& forall|i: int|
        0 <= i < p.mgr.repo.len() ==> known(p.shared.cells, #[trigger] p.mgr.repo[i])
    &&& p.mgr.repo.no_duplicates()
    &&& ordered(p.mgr.timers)
    &&& numbered_up_to(p.mgr.timers, p.mgr.timer_id as int)
    &&& forall|i: int|
        0 <= i < p.mgr.timers.len() ==> timer_known(p, (#[trigger] p.mgr.timers[i]).2)
    &&& forall|i: int|
        0 <= i < p.mgr.waiters.len() ==> awaited(p.waits, #[trigger] p.mgr.waiters[i])
    &&& forall|i: int|
        0 <= i < p.waits.len() ==> reply_known(p.shared.cells, #[trigger] p.waits[i])
    &&& p.mgr.drain_count == drain_timers(p.mgr.timers) + expired
    &&& p.shared.waiter_count >= p.mgr.waiters.len() + waiting_registers(p.registers)
}

/// A pool of which nothing has been asked.
pub open spec fn fresh_pool<T, W>(
    shared: SharedView<T>,
    acquire_timeout: Option<u128>,
    verify: bool,
) -> PoolView<T, W> {
    PoolView {
        shared,
        acquire_timeout,
        registers: Seq::empty(),
        state: PoolState::Active,
        verify,
        waits: Seq::empty(),
        drains: Seq::empty(),
        spawned: Seq::empty(),
        woken: Seq::empty(),
        handles: 1,
        mgr: ManagerView {
            drain_count: 0,
            last_dispose_count: 0,
            repo: Seq::empty(),
            timer_id: 0,
            timers: Seq::empty(),
            waiters: Seq::empty(),
        },
    }
}

/// A pool with other shared contents.
pub open spec fn with_shared<T, W>(p: PoolView<T, W>, shared: SharedView<T>) -> PoolView<T, W> {
    PoolView { shared, ..p }
}

/// A pool whose manager remembers something else.
pub open spec fn with_mgr<T, W>(p: PoolView<T, W>, mgr: ManagerView) -> PoolView<T, W> {
    PoolView { mgr, ..p }
}

/// What is known about a resource whose creation starts.
pub open spec fn created_info<T>(s: SharedView<T>, now: u128) -> ResourceInfo {
    ResourceInfo {
        reusable: s.idle_timeout is Some,
        last_acquire: Some(now),
        acquire_count: 1,
        ..fresh_info(now)
    }
}

/// The guard of a resource whose creation starts.
pub open spec fn created_guard<T>(s: SharedView<T>, now: u128) -> Access<T> {
    GuardView {
        lock: ResourceLock::at(s.cells.len() as usize),
        info: created_info(s, now),
        value: None,
    }
}

/// What is shared after the creation of a resource started.
pub open spec fn after_create<T>(s: SharedView<T>) -> SharedView<T> {
    SharedView {
        cells: s.cells.push(Cell::Held),
        events: s.events.push(
            SharedEvent::Created(ResourceLock::at(s.cells.len() as usize)),
        ),
        ..s
    }
}

/// Check that another resource may be created.
pub open spec fn can_create<T>(s: SharedView<T>) -> bool {
    s.max_count == 0 || s.count < s.max_count
}

/// What is shared after another resource was counted and its creation started.
pub open spec fn after_try_create<T>(s: SharedView<T>) -> SharedView<T> {
    if can_create(s) {
        after_create(SharedView { count: s.count.wrapping_add(1), ..s })
    } else {
        s
    }
}

/// A resource whose creation has started, if another may be created.
pub open spec fn try_created<T>(s: SharedView<T>, now: u128) -> Resolve<T> {
    if can_create(s) {
        ResourceResolve::Future(
            Operation { work: Work::Create, guard: ResourceGuard::of(created_guard(s, now)) },
        )
    } else {
        ResourceResolve::Resource(None)
    }
}

/// Check that a resource should have been verified before a time.
pub open spec fn overdue<T>(guard: Access<T>, now: u128) -> bool {
    guard.info.verify_at is Some && guard.info.verify_at->0 < now
}

/// A guard with one more handing out.
pub open spec fn acquired<T>(guard: Access<T>, now: u128) -> Access<T> {
    GuardView { info: acquired_info(guard.info, now), ..guard }
}

/// What is shared after a resource that can not be verified any more was handed
/// out and disposed of.
pub open spec fn after_expire<T>(s: SharedView<T>, now: u128) -> SharedView<T> {
    let guard = next_idle(s)->0;
    after_dispose(
        after_acquire(s),
        returned(
            GuardView { info: ResourceInfo { expired: true, ..guard.info }, ..guard },
            now,
        ),
    )
}

/// Dropping what has nothing to offer does not make a queue longer.
pub proof fn lemma_live_idle<I, T>(idle: Seq<ResourceLock>, cells: Seq<Cell<I, T>>)
    ensures
        live_idle(idle, cells).len() <= idle.len(),
        live_idle(idle, cells) =~= idle.skip(idle.len() - live_idle(idle, cells).len()),
        live_idle(idle, cells).len() > 0 ==> ready(cells, live_idle(idle, cells)[0]),
    decreases idle.len(),
{
    if idle.len() > 0 && !ready(cells, idle[0]) {
        lemma_live_idle(idle.drop_first(), cells);
        let live = live_idle(idle.drop_first(), cells);
        assert(live =~= idle.drop_first().skip(idle.len() - 1 - live.len()));
        assert(idle.skip(idle.len() - live.len()) =~= idle.drop_first().skip(
            idle.len() - 1 - live.len(),
        ));
    }
}

/// Resources that are overdue, of which none can be verified, are disposed of
/// until there is one that is not. This is what is shared then.
pub open spec fn after_skip<T>(s: SharedView<T>, now: u128) -> SharedView<T>
    decreases s.idle.len(),
{
    proof {
        lemma_live_idle(s.idle, s.cells);
    }
    if next_idle(s) is Some && overdue(next_idle(s)->0, now) {
        after_skip(after_expire(s, now), now)
    } else {
        s
    }
}

/// What is shared at the moment when a user finds a resource that was returned.
pub open spec fn idle_offer<T>(s: SharedView<T>, verify: bool, now: u128) -> SharedView<T> {
    if verify {
        s
    } else {
        after_skip(s, now)
    }
}

/// A resource that was returned, for a user who asks for one. Nobody is served
/// while others wait.
pub open spec fn idle_resource<T>(s: SharedView<T>, verify: bool, now: u128) -> Resolve<T> {
    let offer = idle_offer(s, verify, now);
    if s.waiter_count > 0 {
        ResourceResolve::Resource(None)
    } else {
        match next_idle(offer) {
            None => ResourceResolve::Resource(None),
            Some(guard) => if overdue(guard, now) {
                ResourceResolve::Future(
                    Operation {
                        work: Work::Verify,
                        guard: ResourceGuard::of(acquired(guard, now)),
                    },
                )
            } else {
                ResourceResolve::Resource(Some(ResourceGuard::of(acquired(guard, now))))
            },
        }
    }
}

/// What is shared after a user asked for a resource that was returned.
pub open spec fn after_idle<T>(s: SharedView<T>, verify: bool, now: u128) -> SharedView<T> {
    if s.waiter_count > 0 {
        s
    } else {
        after_acquire(idle_offer(s, verify, now))
    }
}

/// Disposing of resources that are overdue uses them up.
pub proof fn lemma_after_skip<T>(s: SharedView<T>, now: u128)
    ensures
        after_skip(s, now).idle.len() <= s.idle.len(),
        shared_inv(s) ==> shared_inv(after_skip(s, now)),
        shared_inv(s) ==> after_skip(s, now).cells.len() == s.cells.len(),
        after_skip(s, now).waiter_count == s.waiter_count,
        after_skip(s, now).max_count == s.max_count,
        after_skip(s, now).min_count == s.min_count,
        after_skip(s, now).max_waiters == s.max_waiters,
        after_skip(s, now).idle_timeout == s.idle_timeout,
    decreases s.idle.len(),
{
    lemma_live_idle(s.idle, s.cells);
    if next_idle(s) is Some && overdue(next_idle(s)->0, now) {
        let live = live_idle(s.idle, s.cells);
        if shared_inv(s) {
            assert forall|i: int| 0 <= i < live.len() implies known(s.cells, #[trigger] live[i]) by {
                assert(live[i] == s.idle[i + s.idle.len() - live.len()]);
            }
            assert(shared_inv(after_expire(s, now)));
        }
        lemma_after_skip(after_expire(s, now), now);
    }
}

/// A resource that a user finds is not left for the next.
pub proof fn lemma_after_idle<T>(s: SharedView<T>, verify: bool, now: u128)
    ensures
        after_idle(s, verify, now).idle.len() <= s.idle.len(),
        !(idle_resource(s, verify, now) == ResourceResolve::<ResourceInfo, T>::Resource(None))
            ==> after_idle(s, verify, now).idle.len() < s.idle.len(),
        shared_inv(s) ==> after_idle(s, verify, now).cells.len() == s.cells.len(),
        after_idle(s, verify, now).waiter_count == s.waiter_count,
        after_idle(s, verify, now).max_count == s.max_count,
        after_idle(s, verify, now).min_count == s.min_count,
        after_idle(s, verify, now).max_waiters == s.max_waiters,
        after_idle(s, verify, now).idle_timeout == s.idle_timeout,
{
    lemma_after_skip(s, now);
    let offer = idle_offer(s, verify, now);
    let live = live_idle(offer.idle, offer.cells);
    lemma_live_idle(offer.idle, offer.cells);
    if live.len() > 0 {
        assert(live[0] == offer.idle[offer.idle.len() - live.len()]);
    }
}

/// A pool after somebody asked for it to be emptied up to a time.
pub open spec fn after_ask_drain<T, W>(p: PoolView<T, W>, expire: u128) -> PoolView<T, W> {
    PoolView {
        drains: p.drains.push(fresh_wait()),
        ..after_register(p, Register::Drain(expire, WaitResponder::at(p.drains.len() as usize)))
    }
}

/// A pool after somebody looked for the reply to a request for a resource.
pub open spec fn after_look<T, W>(p: PoolView<T, W>, id: int, waker: W) -> PoolView<T, W> {
    PoolView { waits: p.waits.update(id, after_poll_wait(p.waits[id], waker)), ..p }
}

/// A pool after a handle to it was given up. The manager is told if it is waiting
/// for that.
pub open spec fn after_drop_handle<T, W>(p: PoolView<T, W>) -> PoolView<T, W> {
    let left = PoolView { handles: (p.handles - 1) as usize, ..p };
    if left.handles == 0 {
        after_start_drain(left, true)
    } else if left.state is Drain {
        with_shared(left, SharedView { notified: true, ..left.shared })
    } else {
        left
    }
}

/// A pool after a request was made.
pub open spec fn after_register<T, W>(p: PoolView<T, W>, register: Register) -> PoolView<T, W> {
    PoolView {
        registers: p.registers.push(register),
        shared: SharedView { notified: true, ..p.shared },
        ..p
    }
}

/// Check that one more may wait.
pub open spec fn may_wait<T>(s: SharedView<T>) -> bool {
    s.max_waiters is Some ==> s.waiter_count < s.max_waiters->0
}

/// A pool after somebody asked to wait for a resource.
pub open spec fn after_try_wait<T, W>(p: PoolView<T, W>, started: u128) -> PoolView<T, W> {
    if may_wait(p.shared) {
        PoolView {
            waits: p.waits.push(fresh_wait()),
            ..after_register(
                with_shared(
                    p,
                    SharedView { waiter_count: (p.shared.waiter_count + 1) as usize, ..p.shared },
                ),
                Register::Waiter(started, WaitResponder::at(p.waits.len() as usize)),
            )
        }
    } else {
        p
    }
}

/// A pool after work was left to be done in the background.
pub open spec fn after_spawn<T, W>(
    p: PoolView<T, W>,
    operation: Operation<ResourceInfo, T>,
) -> PoolView<T, W> {
    PoolView { spawned: p.spawned.push(operation), ..p }
}

/// Check that a resource is verified rather than disposed of.
pub open spec fn worth_verifying<T, W>(p: PoolView<T, W>, guard: Access<T>) -> bool {
    guard.info.reusable && p.verify && p.shared.count <= p.shared.min_count
}

/// A pool after a resource that was unused for too long was verified or disposed
/// of.
pub open spec fn after_verify_or_dispose<T, W>(p: PoolView<T, W>, guard: Access<T>) -> PoolView<
    T,
    W,
> {
    if worth_verifying(p, guard) {
        after_spawn(p, Operation { work: Work::Verify, guard: ResourceGuard::of(guard) })
    } else {
        with_shared(p, after_dispose(p.shared, guard))
    }
}

/// A pool after it was told to be emptied, or that nobody uses it any more.
pub open spec fn after_start_drain<T, W>(p: PoolView<T, W>, shutdown: bool) -> PoolView<T, W> {
    match p.state {
        PoolState::Active => PoolView {
            state: if shutdown {
                PoolState::Shutdown
            } else {
                PoolState::Drain
            },
            shared: SharedView { notified: true, ..p.shared },
            ..p
        },
        PoolState::Drain => if shutdown {
            PoolView {
                state: PoolState::Shutdown,
                shared: SharedView { notified: true, ..p.shared },
                ..p
            }
        } else {
            p
        },
        _ => p,
    }
}

/// A pool after it was told not to be emptied any more.
pub open spec fn after_stop_drain<T, W>(p: PoolView<T, W>) -> PoolView<T, W> {
    if p.state is Drain {
        PoolView { state: PoolState::Active, ..p }
    } else {
        p
    }
}

/// The wakers that are due, with one more.
pub open spec fn also_woken<W>(woken: Seq<W>, waker: Option<W>) -> Seq<W> {
    match waker {
        Some(waker) => woken.push(waker),
        None => woken,
    }
}

/// A pool after a wait for a resource was called off.
pub open spec fn after_cancel_wait<T, W>(p: PoolView<T, W>, to: WaitResponder) -> PoolView<T, W> {
    PoolView {
        waits: p.waits.update(to.id(), after_cancel(p.waits[to.id()])),
        woken: also_woken(p.woken, woken_by(p.waits[to.id()])),
        ..p
    }
}

/// A pool after the wait for it to be emptied was called off.
pub open spec fn after_cancel_drain<T, W>(p: PoolView<T, W>, to: WaitResponder) -> PoolView<T, W> {
    PoolView {
        drains: p.drains.update(to.id(), after_cancel(p.drains[to.id()])),
        woken: also_woken(p.woken, woken_by(p.drains[to.id()])),
        ..p
    }
}

/// A pool after somebody was told that it is empty.
pub open spec fn after_drained<T, W>(p: PoolView<T, W>, to: WaitResponder) -> PoolView<T, W> {
    PoolView {
        drains: p.drains.update(to.id(), after_reply(p.drains[to.id()], true)),
        woken: also_woken(p.woken, woken_by(p.drains[to.id()])),
        ..p
    }
}

/// A pool after the time to empty it was over.
pub open spec fn after_drain_timeout<T, W>(p: PoolView<T, W>, to: WaitResponder) -> PoolView<T, W> {
    let counted = PoolView {
        mgr: ManagerView { drain_count: (p.mgr.drain_count - 1) as usize, ..p.mgr },
        ..p
    };
    after_cancel_drain(
        if p.mgr.drain_count == 1 {
            after_stop_drain(counted)
        } else {
            counted
        },
        to,
    )
}

/// The guard of a resource after it moved to a new lock.
pub open spec fn detached<T>(s: SharedView<T>, lock: ResourceLock) -> Access<T> {
    GuardView { lock: ResourceLock::at(s.cells.len() as usize), ..guard_at(s.cells, lock) }
}

/// A pool after the manager moved a resource to a new lock.
pub open spec fn after_manager_detach<T, W>(p: PoolView<T, W>, lock: ResourceLock) -> PoolView<
    T,
    W,
> {
    PoolView {
        shared: SharedView {
            cells: after_detach(after_lock(p.shared.cells, lock), guard_at(p.shared.cells, lock)),
            ..p.shared
        },
        mgr: ManagerView { repo: without_lock(p.mgr.repo, lock), ..p.mgr },
        ..p
    }
}

/// What the manager remembers after it took note of a lock.
pub open spec fn after_note(m: ManagerView, lock: ResourceLock) -> ManagerView {
    ManagerView { repo: with_lock(m.repo, lock), ..m }
}

/// Check that an expired timer leads from one state of a pool to another.
///
/// A lock whose resource is in use or gone is left alone. A resource that was not
/// used since the timer was set is verified or disposed of. Any other is returned
/// again.
pub open spec fn timer_expires<T, W, R: Fn(T, ResourceInfo) -> (T, bool)>(
    p: PoolView<T, W>,
    hook: Option<R>,
    entry: TimerEntry<Timer>,
    now: u128,
    post: PoolView<T, W>,
) -> bool {
    match entry.2 {
        Timer::Drain(to) => post == after_drain_timeout(p, to),
        Timer::Waiter(to) => post == after_cancel_wait(p, to),
        Timer::Verify(lock) => if !ready(p.shared.cells, lock) {
            post == p
        } else {
            let guard = detached(p.shared, lock);
            let moved = after_manager_detach(p, lock);
            if guard.info.verify_at == Some(entry.0) {
                post == after_verify_or_dispose(moved, guard)
            } else {
                let noted = with_mgr(moved, after_note(moved.mgr, guard.lock));
                &&& released(noted.shared, hook, guard, now, post.shared)
                &&& post == with_shared(noted, post.shared)
            }
        },
    }
}

/// Check that expired timers, one after the other, lead from one state of a pool
/// to another.
pub open spec fn timers_expire<T, W, R: Fn(T, ResourceInfo) -> (T, bool)>(
    p: PoolView<T, W>,
    hook: Option<R>,
    entries: Seq<TimerEntry<Timer>>,
    now: u128,
    post: PoolView<T, W>,
) -> bool
    decreases entries.len(),
{
    if entries.len() == 0 {
        post == p
    } else {
        exists|mid: PoolView<T, W>|
            timers_expire(p, hook, entries.drop_last(), now, mid) && #[trigger] timer_expires(
                mid,
                hook,
                entries.last(),
                now,
                post,
            )
    }
}

/// Check that dealing with all timers that have expired leads from one state of a
/// pool to another.
pub open spec fn expiry<T, W, R: Fn(T, ResourceInfo) -> (T, bool)>(
    p: PoolView<T, W>,
    hook: Option<R>,
    now: u128,
    post: PoolView<T, W>,
) -> bool {
    timers_expire(
        with_mgr(p, ManagerView { timers: remaining(p.mgr.timers, now), ..p.mgr }),
        hook,
        expired(p.mgr.timers, now),
        now,
        post,
    )
}

/// What the manager remembers after it set a timer.
pub open spec fn after_set_timer(m: ManagerView, at: u128, timer: Timer) -> ManagerView {
    let number = (m.timer_id + 1) as usize;
    ManagerView { timer_id: number, timers: after_insert(m.timers, (at, number, timer)), ..m }
}

/// What the manager remembers after a piece of news.
pub open spec fn after_event(m: ManagerView, event: SharedEvent) -> ManagerView {
    match event {
        SharedEvent::Created(lock) => after_note(m, lock),
        SharedEvent::Verify(at, lock) => after_set_timer(m, at, Timer::Verify(lock)),
    }
}

/// What the manager remembers after all news.
pub open spec fn after_events(m: ManagerView, events: Seq<SharedEvent>) -> ManagerView
    decreases events.len(),
{
    if events.len() == 0 {
        m
    } else {
        after_event(after_events(m, events.drop_last()), events.last())
    }
}

/// A pool after the manager took in all news.
pub open spec fn after_news<T, W>(p: PoolView<T, W>) -> PoolView<T, W> {
    PoolView {
        shared: SharedView { events: Seq::empty(), ..p.shared },
        mgr: after_events(p.mgr, p.shared.events),
        ..p
    }
}

/// A pool after the manager took in a request.
pub open spec fn after_request<T, W>(p: PoolView<T, W>, register: Register) -> PoolView<T, W> {
    match register {
        Register::Drain(expire, to) => {
            let timed = after_set_timer(p.mgr, expire, Timer::Drain(to));
            with_mgr(
                after_start_drain(p, false),
                ManagerView { drain_count: (timed.drain_count + 1) as usize, ..timed },
            )
        },
        Register::Waiter(start, to) => if !p.waits[to.id()].open {
            p
        } else {
            let timed = match later(start, p.acquire_timeout) {
                Some(expire) => after_set_timer(p.mgr, expire, Timer::Waiter(to)),
                None => p.mgr,
            };
            with_mgr(p, ManagerView { waiters: timed.waiters.push(to), ..timed })
        },
    }
}

/// A pool after the manager took in all requests.
pub open spec fn after_requests<T, W>(p: PoolView<T, W>, registers: Seq<Register>) -> PoolView<T, W>
    decreases registers.len(),
{
    if registers.len() == 0 {
        p
    } else {
        after_request(after_requests(p, registers.drop_last()), registers.last())
    }
}

/// A pool after the manager emptied the queue of requests.
pub open spec fn after_inbox<T, W>(p: PoolView<T, W>) -> PoolView<T, W> {
    after_requests(PoolView { registers: Seq::empty(), ..p }, p.registers)
}

/// A pool after the one who waits longest was served or turned out to have gone.
pub open spec fn after_waiter<T, W>(p: PoolView<T, W>) -> PoolView<T, W> {
    PoolView {
        mgr: ManagerView { waiters: p.mgr.waiters.drop_first(), ..p.mgr },
        shared: SharedView { waiter_count: (p.shared.waiter_count - 1) as usize, ..p.shared },
        ..p
    }
}

/// A pool after a resource was sent to somebody.
pub open spec fn after_serve<T, W>(p: PoolView<T, W>, to: WaitResponder, guard: Access<T>) -> PoolView<
    T,
    W,
> {
    PoolView {
        waits: p.waits.update(
            to.id(),
            after_reply(
                p.waits[to.id()],
                ResourceResolve::Resource(Some(ResourceGuard::of(guard))),
            ),
        ),
        woken: also_woken(p.woken, woken_by(p.waits[to.id()])),
        ..p
    }
}

/// Those who wait are served in turn, as long as there are resources. A resource
/// that did not reach anybody goes to the next. This is the pool then, and the
/// resource that is left over.
pub open spec fn served<T, W>(p: PoolView<T, W>, spare: Option<Access<T>>) -> (
    PoolView<T, W>,
    Option<Access<T>>,
)
    decreases p.mgr.waiters.len(),
{
    if p.mgr.waiters.len() == 0 {
        (p, spare)
    } else {
        let to = p.mgr.waiters[0];
        if !p.waits[to.id()].open {
            served(after_waiter(p), spare)
        } else if spare is Some {
            served(
                after_waiter(after_serve(p, to, spare->0)),
                if arrives(p.waits[to.id()]) {
                    None
                } else {
                    spare
                },
            )
        } else if next_idle(p.shared) is Some {
            served(
                after_waiter(
                    after_serve(
                        with_shared(p, after_acquire(p.shared)),
                        to,
                        next_idle(p.shared)->0,
                    ),
                ),
                if arrives(p.waits[to.id()]) {
                    None
                } else {
                    next_idle(p.shared)
                },
            )
        } else {
            (with_shared(p, after_acquire(p.shared)), None)
        }
    }
}

/// Check that serving those who wait leads from one state of a pool to another.
pub open spec fn waiters_served<T, W, R: Fn(T, ResourceInfo) -> (T, bool)>(
    p: PoolView<T, W>,
    hook: Option<R>,
    now: u128,
    post: PoolView<T, W>,
) -> bool {
    if p.mgr.waiters.len() > 0 && (p.shared.idle.len() > 0 || can_create(p.shared)) {
        let (after, spare) = served(p, None);
        match spare {
            None => post == after,
            Some(guard) => {
                &&& released(after.shared, hook, guard, now, post.shared)
                &&& post == with_shared(after, post.shared)
            },
        }
    } else {
        post == p
    }
}

/// What is shared after a resource was disposed of, unless it is in use or gone.
pub open spec fn after_evict<T>(s: SharedView<T>, lock: ResourceLock) -> SharedView<T> {
    if !ready(s.cells, lock) {
        s
    } else {
        after_dispose(
            SharedView { cells: after_lock(s.cells, lock), ..s },
            guard_at(s.cells, lock),
        )
    }
}

/// What is shared after all resources that are not in use were disposed of.
pub open spec fn after_evictions<T>(s: SharedView<T>, locks: Seq<ResourceLock>) -> SharedView<T>
    decreases locks.len(),
{
    if locks.len() == 0 {
        s
    } else {
        after_evict(after_evictions(s, locks.drop_last()), locks.last())
    }
}

/// A pool after the manager forgot the locks that guard nothing.
pub open spec fn after_retain<T, W>(p: PoolView<T, W>) -> PoolView<T, W> {
    PoolView {
        mgr: ManagerView { repo: occupied(p.mgr.repo, p.shared.cells), ..p.mgr },
        ..p
    }
}

/// A pool after the manager looked at how far it has come.
pub open spec fn after_check<T, W>(p: PoolView<T, W>) -> PoolView<T, W> {
    if p.state is Drain {
        after_retain(with_shared(p, after_evictions(p.shared, p.mgr.repo)))
    } else if p.mgr.last_dispose_count != p.shared.dispose_count {
        PoolView {
            mgr: ManagerView {
                last_dispose_count: p.shared.dispose_count,
                ..after_retain(p).mgr
            },
            ..p
        }
    } else {
        p
    }
}

/// Check that the manager stops: the pool is being emptied, there is no resource
/// left, and nobody has a handle but the one who had the pool emptied.
pub open spec fn is_drained<T, W>(p: PoolView<T, W>) -> bool {
    p.state is Drain && p.mgr.repo.len() == 0 && p.handles <= 1
}

/// A pool after a timer that is left when the manager stops.
pub open spec fn after_last_timer<T, W>(p: PoolView<T, W>, timer: Timer) -> PoolView<T, W> {
    match timer {
        Timer::Drain(to) => after_drained(p, to),
        Timer::Waiter(to) => after_cancel_wait(p, to),
        Timer::Verify(_) => p,
    }
}

/// A pool after all timers that are left when the manager stops.
pub open spec fn after_last_timers<T, W>(p: PoolView<T, W>, timers: Seq<TimerEntry<Timer>>) -> PoolView<
    T,
    W,
>
    decreases timers.len(),
{
    if timers.len() == 0 {
        p
    } else {
        after_last_timer(after_last_timers(p, timers.drop_last()), timers.last().2)
    }
}

/// A pool after all those who still wait were told that there is no resource.
pub open spec fn after_dismiss<T, W>(p: PoolView<T, W>, waiters: Seq<WaitResponder>) -> PoolView<T, W>
    decreases waiters.len(),
{
    if waiters.len() == 0 {
        p
    } else {
        after_cancel_wait(after_dismiss(p, waiters.drop_last()), waiters.last())
    }
}

/// A pool after its manager stopped.
pub open spec fn after_stop<T, W>(p: PoolView<T, W>) -> PoolView<T, W> {
    let told = after_dismiss(after_last_timers(p, p.mgr.timers), p.mgr.waiters);
    PoolView {
        state: PoolState::Stopped,
        mgr: ManagerView {
            timers: Seq::empty(),
            waiters: Seq::empty(),
            drain_count: 0,
            ..told.mgr
        },
        ..told
    }
}

/// The end of a round of the manager.
pub open spec fn after_round<T, W>(p: PoolView<T, W>) -> PoolView<T, W> {
    if is_drained(after_check(p)) {
        after_stop(after_check(p))
    } else {
        after_check(p)
    }
}

/// What the manager does after a round: it waits for the next notification, up to
/// the time of the earliest timer, or it stops.
pub open spec fn rest_after<T, W>(p: PoolView<T, W>) -> Rest {
    if is_drained(after_check(p)) {
        Rest::Stop
    } else if p.mgr.timers.len() > 0 {
        Rest::Wait(Some(p.mgr.timers[0].0))
    } else {
        Rest::Wait(None)
    }
}

/// Check that a round of the manager leads from one state of a pool to another.
///
/// It deals with the timers that have expired, takes in the news and the
/// requests, serves those who wait, and looks at how far the pool has come.
pub open spec fn round<T, W, R: Fn(T, ResourceInfo) -> (T, bool)>(
    p: PoolView<T, W>,
    hook: Option<R>,
    now: u128,
    post: PoolView<T, W>,
    rest: Rest,
) -> bool {
    exists|on_time: PoolView<T, W>, served: PoolView<T, W>| #[trigger]
        expiry(p, hook, now, on_time) && #[trigger] waiters_served(
            after_inbox(after_news(on_time)),
            hook,
            now,
            served,
        ) && pool_inv(on_time) && pool_inv(served) && post == after_round(served) && rest
            == rest_after(served)
}

/// What is expired counts separately from what is not.
pub proof fn lemma_drain_timers_add(a: Seq<TimerEntry<Timer>>, b: Seq<TimerEntry<Timer>>)
    ensures
        drain_timers(a + b) == drain_timers(a) + drain_timers(b),
    decreases b.len(),
{
    if b.len() == 0 {
        assert(a + b =~= a);
    } else {
        assert((a + b).drop_last() =~= a + b.drop_last());
        lemma_drain_timers_add(a, b.drop_last());
    }
}

/// A new timer is counted if it is one for emptying the pool.
pub proof fn lemma_drain_timers_insert(timers: Seq<TimerEntry<Timer>>, entry: TimerEntry<Timer>)
    requires
        ordered(timers),
    ensures
        drain_timers(after_insert(timers, entry)) == drain_timers(timers) + (if entry.2 is Drain {
            1nat
        } else {
            0nat
        }),
{
    let at = crate::timers::due_before(timers, entry.0 + 1) as int;
    crate::timers::lemma_split(timers, entry.0 + 1);
    let front = timers.take(at);
    let back = timers.skip(at);
    assert(timers =~= front + back);
    assert(after_insert(timers, entry) =~= front.push(entry) + back);
    lemma_drain_timers_add(front, back);
    lemma_drain_timers_add(front.push(entry), back);
    assert(front.push(entry).drop_last() =~= front);
}

/// There are no more timers for emptying the pool than timers.
pub proof fn lemma_drain_timers_bound(timers: Seq<TimerEntry<Timer>>)
    ensures
        drain_timers(timers) <= timers.len(),
    decreases timers.len(),
{
    if timers.len() > 0 {
        lemma_drain_timers_bound(timers.drop_last());
    }
}

/// The request in front is counted if it is that of somebody who waits.
pub proof fn lemma_waiting_first(registers: Seq<Register>)
    requires
        registers.len() > 0,
    ensures
        waiting_registers(registers) == waiting_registers(registers.drop_first()) + (
        if registers[0] is Waiter {
            1nat
        } else {
            0nat
        }),
    decreases registers.len(),
{
    if registers.len() > 1 {
        lemma_waiting_first(registers.drop_last());
        assert(registers.drop_first().drop_last() =~= registers.drop_last().drop_first());
    } else {
        assert(registers.drop_last() =~= Seq::<Register>::empty());
        assert(registers.drop_first() =~= Seq::<Register>::empty());
    }
}

/// What is shared may change, as long as no lock is lost and nobody who waits is
/// forgotten.
pub proof fn lemma_inv_shared<T, W>(p: PoolView<T, W>, s: SharedView<T>, expired: nat)
    requires
        pool_inv_amid(p, expired),
        shared_inv(s),
        s.cells.len() >= p.shared.cells.len(),
        s.waiter_count >= p.shared.waiter_count,
    ensures
        pool_inv_amid(with_shared(p, s), expired),
{
    let q = with_shared(p, s);
    assert forall|i: int| 0 <= i < q.waits.len() implies reply_known(
        q.shared.cells,
        #[trigger] q.waits[i],
    ) by {
        assert(reply_known(p.shared.cells, p.waits[i]));
    }
    assert forall|i: int| 0 <= i < q.registers.len() implies register_known(
        q,
        #[trigger] q.registers[i],
    ) by {
        assert(register_known(p, p.registers[i]));
    }
    assert forall|i: int| 0 <= i < q.mgr.timers.len() implies timer_known(
        q,
        (#[trigger] q.mgr.timers[i]).2,
    ) by {
        assert(timer_known(p, p.mgr.timers[i].2));
    }
}

/// The replies may change, as long as none is lost.
pub proof fn lemma_inv_waits<T, W>(p: PoolView<T, W>, q: PoolView<T, W>, expired: nat)
    requires
        pool_inv_amid(p, expired),
        q.waits.len() >= p.waits.len(),
        q.drains.len() >= p.drains.len(),
        forall|i: int|
            0 <= i < q.waits.len() ==> reply_known(p.shared.cells, #[trigger] q.waits[i]),
        q.shared == p.shared,
        q.registers == p.registers,
        q.acquire_timeout == p.acquire_timeout,
        q.mgr == p.mgr,
    ensures
        pool_inv_amid(q, expired),
{
    assert forall|i: int| 0 <= i < q.registers.len() implies register_known(
        q,
        #[trigger] q.registers[i],
    ) by {
        assert(register_known(p, p.registers[i]));
    }
    assert forall|i: int| 0 <= i < q.mgr.timers.len() implies timer_known(
        q,
        (#[trigger] q.mgr.timers[i]).2,
    ) by {
        assert(timer_known(p, p.mgr.timers[i].2));
    }
}

/// The manager may forget locks and take note of others.
pub proof fn lemma_inv_repo<T, W>(p: PoolView<T, W>, repo: Seq<ResourceLock>, expired: nat)
    requires
        pool_inv_amid(p, expired),
        repo.no_duplicates(),
        forall|i: int| 0 <= i < repo.len() ==> known(p.shared.cells, #[trigger] repo[i]),
    ensures
        pool_inv_amid(with_mgr(p, ManagerView { repo, ..p.mgr }), expired),
{
    let q = with_mgr(p, ManagerView { repo, ..p.mgr });
    assert forall|i: int| 0 <= i < q.registers.len() implies register_known(
        q,
        #[trigger] q.registers[i],
    ) by {
        assert(register_known(p, p.registers[i]));
    }
    assert forall|i: int| 0 <= i < q.mgr.timers.len() implies timer_known(
        q,
        (#[trigger] q.mgr.timers[i]).2,
    ) by {
        assert(timer_known(p, p.mgr.timers[i].2));
    }
}

/// A timer may be set for something that is there.
pub proof fn lemma_inv_timer<T, W>(p: PoolView<T, W>, at: u128, timer: Timer, expired: nat)
    requires
        pool_inv_amid(p, expired),
        timer_known(p, timer),
        p.mgr.timer_id < usize::MAX,
        ordered(after_set_timer(p.mgr, at, timer).timers),
        numbered_up_to(after_set_timer(p.mgr, at, timer).timers, p.mgr.timer_id + 1),
    ensures
        !(timer is Drain) ==> pool_inv_amid(
            with_mgr(p, after_set_timer(p.mgr, at, timer)),
            expired,
        ),
        timer is Drain && p.mgr.drain_count < usize::MAX ==> pool_inv_amid(
            with_mgr(
                p,
                ManagerView {
                    drain_count: (p.mgr.drain_count + 1) as usize,
                    ..after_set_timer(p.mgr, at, timer)
                },
            ),
            expired,
        ),
{
    let m = after_set_timer(p.mgr, at, timer);
    let entry = (at, (p.mgr.timer_id + 1) as usize, timer);
    let place = crate::timers::due_before(p.mgr.timers, at + 1) as int;
    crate::timers::lemma_split(p.mgr.timers, at + 1);
    lemma_drain_timers_insert(p.mgr.timers, entry);
    let q = with_mgr(p, m);
    let d = with_mgr(p, ManagerView { drain_count: (p.mgr.drain_count + 1) as usize, ..m });
    assert forall|i: int| 0 <= i < m.timers.len() implies timer_known(
        q,
        (#[trigger] m.timers[i]).2,
    ) && timer_known(d, m.timers[i].2) by {
        if i < place {
            assert(m.timers[i] == p.mgr.timers[i]);
            assert(timer_known(p, p.mgr.timers[i].2));
        } else if i > place {
            assert(m.timers[i] == p.mgr.timers[i - 1]);
            assert(timer_known(p, p.mgr.timers[i - 1].2));
        }
    }
    assert forall|i: int| 0 <= i < p.registers.len() implies register_known(
        q,
        #[trigger] p.registers[i],
    ) && register_known(d, p.registers[i]) by {
        assert(register_known(p, p.registers[i]));
    }
}

} // verus!
