//! What such a pool is, and what happens to it.

use vstd::prelude::*;

use crate::arp::model::{PoolState, Register, Timer};
use crate::lifecycle::info::{fresh_info, ResourceInfo};
use crate::lifecycle::queue::{
    after_acquire, after_release, next_idle, queue_inv, QueueEvent, QueueView,
};
use crate::pool::model::{also_woken, reply_known, Rest};
use crate::resource::lock::{
    after_detach, after_lock, after_unlock, known, Cell, GuardView, ResourceGuard, ResourceLock,
};
use crate::resource::operation::{Operation, ResourceResolve, Work};
use crate::resource::repo::{occupied, with_lock, without_lock};
use crate::shared::{guard_at, in_time, later};
use crate::timers::{after_insert, expired, numbered_up_to, ordered, remaining, TimerEntry};
use crate::wait::{
    after_cancel, after_poll_wait, after_reply, arrives, attended, awaited, fresh_wait, woken_by,
    WaitResponder, WaitView,
};

verus! {

/// A resource of such a pool, or the prospect of one.
pub type Resolve<T> = ResourceResolve<ResourceInfo, T>;

/// A guard of a resource of such a pool.
pub type Guard<T> = ResourceGuard<ResourceInfo, T>;

/// What a guard of a resource of such a pool gives access to.
pub type Access<T> = GuardView<ResourceInfo, T>;

/// Which handlers there are. Resources are always created by one.
#[derive(Clone, Copy, Debug, PartialEq, Eq, Structural)]
pub struct Handlers {
    /// Whether resources are disposed of by a handler.
    pub dispose: bool,
    /// Whether somebody wants to see errors.
    pub handle_error: bool,
    /// Whether resources are kept alive by a handler.
    pub keepalive: bool,
}

/// What the manager remembers.
#[verifier::ext_equal]
pub ghost struct ManagerView {
    /// The locks of the resources of the pool.
    pub repo: Seq<ResourceLock>,
    /// The number of the timer that was set last.
    pub timer_id: usize,
    /// The timers.
    pub timers: Seq<TimerEntry<Timer>>,
    /// Those who wait for a resource, the one who waits longest in front.
    pub waiters: Seq<WaitResponder>,
}

/// A pool.
#[verifier::ext_equal]
pub ghost struct PoolView<T, W> {
    /// What its users and its manager share.
    pub queue: QueueView<T>,
    /// How long somebody may wait for a resource.
    pub acquire_timeout: Option<u128>,
    /// The requests to the manager.
    pub registers: Seq<Register>,
    /// How far the pool has come.
    pub state: PoolState,
    /// Which handlers there are.
    pub handlers: Handlers,
    /// The replies to those who wait for a resource.
    pub waits: Seq<WaitView<Resolve<T>, W>>,
    /// The replies to those who wait for the pool to be empty.
    pub shutdowns: Seq<WaitView<bool, W>>,
    /// The work that is to be done in the background.
    pub spawned: Seq<Operation<ResourceInfo, T>>,
    /// The wakers that are due.
    pub woken: Seq<W>,
    /// The number of handles.
    pub handles: usize,
    /// What the manager remembers.
    pub mgr: ManagerView,
}

/// Check that what a timer is about is there.
pub open spec fn timer_known<T, W>(p: PoolView<T, W>, timer: Timer) -> bool {
    match timer {
        Timer::Shutdown(to) => awaited(p.shutdowns, to),
        Timer::Verify(lock) => known(p.queue.cells, lock),
        Timer::Waiter(to) => awaited(p.waits, to),
    }
}

/// Check that what a request is about is there, and its time can be told.
pub open spec fn register_known<T, W>(p: PoolView<T, W>, register: Register) -> bool {
    match register {
        Register::Shutdown(_, to) => awaited(p.shutdowns, to),
        Register::Waiter(start, to) => awaited(p.waits, to) && in_time(start, p.acquire_timeout),
    }
}

/// Check that nothing that was handed out becomes invalid: locks stay in the
/// store, and whoever waits can go on waiting.
pub open spec fn extends<T, W>(p: PoolView<T, W>, q: PoolView<T, W>) -> bool {
    &&& p.queue.cells.len() <= q.queue.cells.len()
    &&& p.waits.len() <= q.waits.len()
    &&& p.shutdowns.len() <= q.shutdowns.len()
    &&& forall|i: int|
        0 <= i < p.waits.len() && attended(#[trigger] p.waits[i]) ==> attended(q.waits[i])
    &&& forall|i: int|
        0 <= i < p.shutdowns.len() && attended(#[trigger] p.shutdowns[i]) ==> attended(
            q.shutdowns[i],
        )
}

/// What holds of a pool at all times: everything that is waiting somewhere is
/// there, and the timers are in order.
pub open spec fn pool_inv<T, W>(p: PoolView<T, W>) -> bool {
    &&& queue_inv(p.queue)
    &&& forall|i: int|
        0 <= i < p.registers.len() ==> register_known(p, #[trigger] p.registers[i])
    &&& forall|i: int|
        0 <= i < p.mgr.repo.len() ==> known(p.queue.cells, #[trigger] p.mgr.repo[i])
    &&& p.mgr.repo.no_duplicates()
    &&& ordered(p.mgr.timers)
    &&& numbered_up_to(p.mgr.timers, p.mgr.timer_id as int)
    &&& forall|i: int|
        0 <= i < p.mgr.timers.len() ==> timer_known(p, (#[trigger] p.mgr.timers[i]).2)
    &&& forall|i: int|
        0 <= i < p.mgr.waiters.len() ==> awaited(p.waits, #[trigger] p.mgr.waiters[i])
    &&& forall|i: int|
        0 <= i < p.waits.len() ==> reply_known(p.queue.cells, #[trigger] p.waits[i])
}

/// A pool of which nothing has been asked.
pub open spec fn fresh_pool<T, W>(
    queue: QueueView<T>,
    acquire_timeout: Option<u128>,
    handlers: Handlers,
) -> PoolView<T, W> {
    PoolView {
        queue,
        acquire_timeout,
        registers: Seq::empty(),
        state: PoolState::Active,
        handlers,
        waits: Seq::empty(),
        shutdowns: Seq::empty(),
        spawned: Seq::empty(),
        woken: Seq::empty(),
        handles: 1,
        mgr: ManagerView {
            repo: Seq::empty(),
            timer_id: 0,
            timers: Seq::empty(),
            waiters: Seq::empty(),
        },
    }
}

/// A pool with other shared contents.
pub open spec fn with_queue<T, W>(p: PoolView<T, W>, queue: QueueView<T>) -> PoolView<T, W> {
    PoolView { queue, ..p }
}

/// A pool whose manager remembers something else.
pub open spec fn with_mgr<T, W>(p: PoolView<T, W>, mgr: ManagerView) -> PoolView<T, W> {
    PoolView { mgr, ..p }
}

/// The guard of a resource whose creation starts.
pub open spec fn created_guard<T>(s: QueueView<T>, now: u128) -> Access<T> {
    GuardView {
        lock: ResourceLock::at(s.cells.len() as usize),
        info: fresh_info(now),
        value: None,
    }
}

/// What is shared after the creation of a resource started.
pub open spec fn after_create<T>(s: QueueView<T>) -> QueueView<T> {
    QueueView {
        notified: true,
        cells: s.cells.push(Cell::Held),
        events: s.events.push(
            QueueEvent::Created(ResourceLock::at(s.cells.len() as usize)),
        ),
        ..s
    }
}

/// Check that another resource may be created.
pub open spec fn can_create<T>(s: QueueView<T>) -> bool {
    s.max_count is Some ==> s.count < s.max_count->0
}

/// What is shared after another resource was counted and its creation started.
pub open spec fn after_try_create<T>(s: QueueView<T>) -> QueueView<T> {
    if can_create(s) {
        after_create(QueueView { count: s.count.wrapping_add(1), ..s })
    } else {
        s
    }
}

/// A resource whose creation has started, if another may be created.
pub open spec fn try_created<T>(s: QueueView<T>, now: u128) -> Resolve<T> {
    if can_create(s) {
        ResourceResolve::Future(
            Operation { work: Work::Create, guard: ResourceGuard::of(created_guard(s, now)) },
        )
    } else {
        ResourceResolve::Resource(None)
    }
}

/// A resource that was returned, for a user who asks for one. Nobody is served
/// while others wait.
pub open spec fn idle_resource<T>(s: QueueView<T>, now: u128) -> Resolve<T> {
    if s.busy || next_idle(s, now) is None {
        ResourceResolve::Resource(None)
    } else {
        ResourceResolve::Resource(Some(ResourceGuard::of(next_idle(s, now)->0)))
    }
}

/// What is shared after a user asked for a resource that was returned.
pub open spec fn after_idle<T>(s: QueueView<T>) -> QueueView<T> {
    if s.busy {
        s
    } else {
        after_acquire(s)
    }
}

/// A pool after somebody asked to wait for a resource.
pub open spec fn after_try_wait<T, W>(p: PoolView<T, W>, started: u128) -> PoolView<T, W> {
    PoolView {
        waits: p.waits.push(fresh_wait()),
        registers: p.registers.push(
            Register::Waiter(started, WaitResponder::at(p.waits.len() as usize)),
        ),
        queue: QueueView { notified: true, ..p.queue },
        ..p
    }
}

/// A pool after somebody asked to be told whether it is empty at a time.
pub open spec fn after_ask_shutdown<T, W>(p: PoolView<T, W>, expire: u128) -> PoolView<T, W> {
    PoolView {
        shutdowns: p.shutdowns.push(fresh_wait()),
        registers: p.registers.push(
            Register::Shutdown(expire, WaitResponder::at(p.shutdowns.len() as usize)),
        ),
        ..p
    }
}

/// A pool after it was noted that nobody uses it any more.
pub open spec fn after_shutdown<T, W>(p: PoolView<T, W>) -> PoolView<T, W> {
    if p.state is Stopped {
        p
    } else {
        PoolView {
            state: PoolState::Shutdown,
            queue: QueueView { notified: true, ..p.queue },
            ..p
        }
    }
}

/// A pool after a handle to it was given up.
pub open spec fn after_drop_handle<T, W>(p: PoolView<T, W>) -> PoolView<T, W> {
    let left = PoolView { handles: (p.handles - 1) as usize, ..p };
    if left.handles == 0 {
        after_shutdown(left)
    } else {
        left
    }
}

/// A pool after somebody looked for the reply to a request for a resource.
pub open spec fn after_look<T, W>(p: PoolView<T, W>, id: int, waker: W) -> PoolView<T, W> {
    PoolView { waits: p.waits.update(id, after_poll_wait(p.waits[id], waker)), ..p }
}

/// A pool after work was left to be done in the background.
pub open spec fn after_spawn<T, W>(
    p: PoolView<T, W>,
    operation: Operation<ResourceInfo, T>,
) -> PoolView<T, W> {
    PoolView { spawned: p.spawned.push(operation), ..p }
}

/// A pool after a resource was handed to the handler that disposes of it. Without
/// one, and without a resource, the guard goes back as it is.
pub open spec fn after_dispose<T, W>(p: PoolView<T, W>, guard: Access<T>) -> PoolView<T, W> {
    if p.handlers.dispose && guard.value is Some {
        after_spawn(p, Operation { work: Work::Dispose, guard: ResourceGuard::of(guard) })
    } else {
        with_queue(p, QueueView { cells: after_unlock(p.queue.cells, guard), ..p.queue })
    }
}

/// A pool after a resource was handed to the handler that keeps it alive. Without
/// one it is disposed of.
pub open spec fn after_keepalive<T, W>(p: PoolView<T, W>, guard: Access<T>) -> PoolView<T, W> {
    if p.handlers.keepalive {
        after_spawn(p, Operation { work: Work::Keepalive, guard: ResourceGuard::of(guard) })
    } else {
        after_dispose(p, guard)
    }
}

/// A pool after a resource that was unused for too long was looked after: it is
/// disposed of if there are more than are kept, and kept alive otherwise.
pub open spec fn after_verify<T, W>(p: PoolView<T, W>, guard: Access<T>) -> PoolView<T, W> {
    if p.queue.count > p.queue.min_count {
        after_dispose(p, guard)
    } else {
        after_keepalive(p, guard)
    }
}

/// A pool after a wait for a resource was called off.
pub open spec fn after_cancel_wait<T, W>(p: PoolView<T, W>, to: WaitResponder) -> PoolView<T, W> {
    PoolView {
        waits: p.waits.update(to.id(), after_cancel(p.waits[to.id()])),
        woken: also_woken(p.woken, woken_by(p.waits[to.id()])),
        ..p
    }
}

/// A pool after the wait for it to be empty was called off.
pub open spec fn after_cancel_shutdown<T, W>(p: PoolView<T, W>, to: WaitResponder) -> PoolView<
    T,
    W,
> {
    PoolView {
        shutdowns: p.shutdowns.update(to.id(), after_cancel(p.shutdowns[to.id()])),
        woken: also_woken(p.woken, woken_by(p.shutdowns[to.id()])),
        ..p
    }
}

/// A pool after somebody was told that it is empty.
pub open spec fn after_confirm<T, W>(p: PoolView<T, W>, to: WaitResponder) -> PoolView<T, W> {
    PoolView {
        shutdowns: p.shutdowns.update(to.id(), after_reply(p.shutdowns[to.id()], true)),
        woken: also_woken(p.woken, woken_by(p.shutdowns[to.id()])),
        ..p
    }
}

/// The guard of a resource after it moved to a new lock.
pub open spec fn detached<T>(s: QueueView<T>, lock: ResourceLock) -> Access<T> {
    GuardView { lock: ResourceLock::at(s.cells.len() as usize), ..guard_at(s.cells, lock) }
}

/// A pool after the manager moved a resource to a new lock.
pub open spec fn after_manager_detach<T, W>(p: PoolView<T, W>, lock: ResourceLock) -> PoolView<
    T,
    W,
> {
    PoolView {
        queue: QueueView {
            cells: after_detach(after_lock(p.queue.cells, lock), guard_at(p.queue.cells, lock)),
            ..p.queue
        },
        mgr: ManagerView { repo: without_lock(p.mgr.repo, lock), ..p.mgr },
        ..p
    }
}

/// What the manager remembers after it took note of a lock.
pub open spec fn after_note(m: ManagerView, lock: ResourceLock) -> ManagerView {
    ManagerView { repo: with_lock(m.repo, lock), ..m }
}

/// A pool after a timer has expired.
///
/// A resource that is in use is left alone. One that was not used since the
/// timer was set is looked after. Any other is returned again.
pub open spec fn after_timer<T, W>(
    p: PoolView<T, W>,
    entry: TimerEntry<Timer>,
    now: u128,
) -> PoolView<T, W> {
    match entry.2 {
        Timer::Shutdown(to) => after_cancel_shutdown(p, to),
        Timer::Waiter(to) => after_cancel_wait(p, to),
        Timer::Verify(lock) => if p.queue.cells[lock.id()] is Held {
            p
        } else {
            let guard = detached(p.queue, lock);
            let moved = after_manager_detach(p, lock);
            if guard.value is Some && guard.info.verify_at == Some(entry.0) {
                after_verify(moved, guard)
            } else {
                let noted = with_mgr(moved, after_note(moved.mgr, guard.lock));
                with_queue(noted, after_release(noted.queue, guard, now))
            }
        },
    }
}

/// A pool after timers have expired, one after the other.
pub open spec fn after_timers<T, W>(
    p: PoolView<T, W>,
    entries: Seq<TimerEntry<Timer>>,
    now: u128,
) -> PoolView<T, W>
    decreases entries.len(),
{
    if entries.len() == 0 {
        p
    } else {
        after_timer(after_timers(p, entries.drop_last(), now), entries.last(), now)
    }
}

/// A pool after all timers that have expired were dealt with.
pub open spec fn after_expiry<T, W>(p: PoolView<T, W>, now: u128) -> PoolView<T, W> {
    after_timers(
        with_mgr(p, ManagerView { timers: remaining(p.mgr.timers, now), ..p.mgr }),
        expired(p.mgr.timers, now),
        now,
    )
}

/// What the manager remembers after it set a timer.
pub open spec fn after_set_timer(m: ManagerView, at: u128, timer: Timer) -> ManagerView {
    let number = (m.timer_id + 1) as usize;
    ManagerView { timer_id: number, timers: after_insert(m.timers, (at, number, timer)), ..m }
}

/// What the manager remembers after a piece of news.
pub open spec fn after_event(m: ManagerView, event: QueueEvent) -> ManagerView {
    match event {
        QueueEvent::Created(lock) => after_note(m, lock),
        QueueEvent::Disposed(lock) => ManagerView { repo: without_lock(m.repo, lock), ..m },
        QueueEvent::Verify(at, lock) => after_set_timer(m, at, Timer::Verify(lock)),
    }
}

/// What the manager remembers after all news.
pub open spec fn after_events(m: ManagerView, events: Seq<QueueEvent>) -> ManagerView
    decreases events.len(),
{
    if events.len() == 0 {
        m
    } else {
        after_event(after_events(m, events.drop_last()), events.last())
    }
}

/// A pool after the manager took in all news.
pub open spec fn after_news<T, W>(p: PoolView<T, W>) -> PoolView<T, W> {
    PoolView {
        queue: QueueView { events: Seq::empty(), ..p.queue },
        mgr: after_events(p.mgr, p.queue.events),
        ..p
    }
}

/// What the manager remembers after a request.
pub open spec fn after_request(m: ManagerView, timeout: Option<u128>, register: Register) -> ManagerView {
    match register {
        Register::Shutdown(expire, to) => after_set_timer(m, expire, Timer::Shutdown(to)),
        Register::Waiter(start, to) => {
            let timed = match later(start, timeout) {
                Some(expire) => after_set_timer(m, expire, Timer::Waiter(to)),
                None => m,
            };
            ManagerView { waiters: timed.waiters.push(to), ..timed }
        },
    }
}

/// What the manager remembers after all requests.
pub open spec fn after_requests(
    m: ManagerView,
    timeout: Option<u128>,
    registers: Seq<Register>,
) -> ManagerView
    decreases registers.len(),
{
    if registers.len() == 0 {
        m
    } else {
        after_request(
            after_requests(m, timeout, registers.drop_last()),
            timeout,
            registers.last(),
        )
    }
}

/// A pool after the manager emptied the queue of requests.
pub open spec fn after_inbox<T, W>(p: PoolView<T, W>) -> PoolView<T, W> {
    PoolView {
        registers: Seq::empty(),
        mgr: after_requests(p.mgr, p.acquire_timeout, p.registers),
        ..p
    }
}

/// A pool after the one who waits longest was served or turned out to have gone.
pub open spec fn after_waiter<T, W>(p: PoolView<T, W>) -> PoolView<T, W> {
    with_mgr(p, ManagerView { waiters: p.mgr.waiters.drop_first(), ..p.mgr })
}

/// A pool after a resource was sent to somebody.
pub open spec fn after_serve<T, W>(p: PoolView<T, W>, to: WaitResponder, guard: Access<T>) -> PoolView<
    T,
    W,
> {
    PoolView {
        waits: p.waits.update(
            to.id(),
            after_reply(
                p.waits[to.id()],
                ResourceResolve::Resource(Some(ResourceGuard::of(guard))),
            ),
        ),
        woken: also_woken(p.woken, woken_by(p.waits[to.id()])),
        ..p
    }
}

/// A pool after those who wait were served in turn, as long as there are
/// resources.
pub open spec fn served<T, W>(p: PoolView<T, W>, now: u128) -> PoolView<T, W>
    decreases p.mgr.waiters.len(),
{
    if p.mgr.waiters.len() == 0 {
        p
    } else {
        let to = p.mgr.waiters[0];
        if !arrives(p.waits[to.id()]) {
            served(after_waiter(p), now)
        } else if next_idle(p.queue, now) is Some {
            served(
                after_waiter(
                    after_serve(
                        with_queue(p, after_acquire(p.queue)),
                        to,
                        next_idle(p.queue, now)->0,
                    ),
                ),
                now,
            )
        } else {
            with_queue(p, after_acquire(p.queue))
        }
    }
}

/// A pool after the manager turned to those who wait. The pool is busy while
/// somebody does.
pub open spec fn after_waiters<T, W>(p: PoolView<T, W>, now: u128) -> PoolView<T, W> {
    let told = with_queue(p, QueueView { busy: p.mgr.waiters.len() > 0, ..p.queue });
    if p.mgr.waiters.len() > 0 && (p.queue.idle.len() > 0 || can_create(p.queue)) {
        served(told, now)
    } else {
        told
    }
}

/// A pool after a resource was disposed of, unless it is in use.
pub open spec fn after_evict<T, W>(p: PoolView<T, W>, lock: ResourceLock) -> PoolView<T, W> {
    if p.queue.cells[lock.id()] is Held {
        p
    } else {
        after_dispose(
            with_queue(p, QueueView { cells: after_lock(p.queue.cells, lock), ..p.queue }),
            guard_at(p.queue.cells, lock),
        )
    }
}

/// A pool after all resources that are not in use were disposed of.
pub open spec fn after_evictions<T, W>(p: PoolView<T, W>, locks: Seq<ResourceLock>) -> PoolView<T, W>
    decreases locks.len(),
{
    if locks.len() == 0 {
        p
    } else {
        after_evict(after_evictions(p, locks.drop_last()), locks.last())
    }
}

/// A pool after the manager forgot the locks that guard nothing.
pub open spec fn after_retain<T, W>(p: PoolView<T, W>) -> PoolView<T, W> {
    with_mgr(p, ManagerView { repo: occupied(p.mgr.repo, p.queue.cells), ..p.mgr })
}

/// A pool after the manager looked at how far it has come.
pub open spec fn after_check<T, W>(p: PoolView<T, W>) -> PoolView<T, W> {
    if p.state is Shutdown {
        after_retain(after_evictions(p, p.mgr.repo))
    } else {
        p
    }
}

/// Check that the manager stops.
pub open spec fn is_emptied<T, W>(p: PoolView<T, W>) -> bool {
    p.state is Shutdown && p.mgr.repo.len() == 0
}

/// A pool after a timer that is left when the manager stops.
pub open spec fn after_last_timer<T, W>(p: PoolView<T, W>, timer: Timer) -> PoolView<T, W> {
    match timer {
        Timer::Shutdown(to) => after_confirm(p, to),
        Timer::Waiter(to) => after_cancel_wait(p, to),
        Timer::Verify(_) => p,
    }
}

/// A pool after all timers that are left when the manager stops.
pub open spec fn after_last_timers<T, W>(p: PoolView<T, W>, timers: Seq<TimerEntry<Timer>>) -> PoolView<
    T,
    W,
>
    decreases timers.len(),
{
    if timers.len() == 0 {
        p
    } else {
        after_last_timer(after_last_timers(p, timers.drop_last()), timers.last().2)
    }
}

/// A pool after all those who still wait were told that there is no resource.
pub open spec fn after_dismiss<T, W>(p: PoolView<T, W>, waiters: Seq<WaitResponder>) -> PoolView<T, W>
    decreases waiters.len(),
{
    if waiters.len() == 0 {
        p
    } else {
        after_cancel_wait(after_dismiss(p, waiters.drop_last()), waiters.last())
    }
}

/// A pool after its manager stopped.
pub open spec fn after_stop<T, W>(p: PoolView<T, W>) -> PoolView<T, W> {
    let told = after_dismiss(after_last_timers(p, p.mgr.timers), p.mgr.waiters);
    PoolView {
        state: PoolState::Stopped,
        mgr: ManagerView { timers: Seq::empty(), waiters: Seq::empty(), ..told.mgr },
        ..told
    }
}

/// The end of a round of the manager.
pub open spec fn after_round<T, W>(p: PoolView<T, W>) -> PoolView<T, W> {
    if is_emptied(after_check(p)) {
        after_stop(after_check(p))
    } else {
        after_check(p)
    }
}

/// What the manager does after a round: it waits for the next notification, up to
/// a time, or it stops.
pub open spec fn rest_after<T, W>(p: PoolView<T, W>, next: Option<u128>) -> Rest {
    if is_emptied(after_check(p)) {
        Rest::Stop
    } else {
        Rest::Wait(next)
    }
}

/// A pool in a round of the manager, before the manager looks at how far it has
/// come: the timers that have expired were dealt with, the news and the requests
/// taken in, and those who wait served.
pub open spec fn after_work<T, W>(p: PoolView<T, W>, now: u128) -> PoolView<T, W> {
    after_waiters(after_inbox(after_news(after_expiry(p, now))), now)
}

/// What is shared may change, as long as no lock is lost.
pub proof fn lemma_inv_queue<T, W>(p: PoolView<T, W>, s: QueueView<T>)
    requires
        pool_inv(p),
        queue_inv(s),
        s.cells.len() >= p.queue.cells.len(),
    ensures
        pool_inv(with_queue(p, s)),
{
    let q = with_queue(p, s);
    assert forall|i: int| 0 <= i < q.waits.len() implies reply_known(
        q.queue.cells,
        #[trigger] q.waits[i],
    ) by {
        assert(reply_known(p.queue.cells, p.waits[i]));
    }
    lemma_inv_rest(p, q);
}

proof fn lemma_inv_rest<T, W>(p: PoolView<T, W>, q: PoolView<T, W>)
    requires
        pool_inv(p),
        q.queue.cells.len() >= p.queue.cells.len(),
        q.waits.len() >= p.waits.len(),
        q.shutdowns.len() >= p.shutdowns.len(),
        q.acquire_timeout == p.acquire_timeout,
    ensures
        forall|i: int|
            0 <= i < p.registers.len() ==> register_known(q, #[trigger] p.registers[i]),
        forall|i: int|
            0 <= i < p.mgr.timers.len() ==> timer_known(q, (#[trigger] p.mgr.timers[i]).2),
{
    assert forall|i: int| 0 <= i < p.registers.len() implies register_known(
        q,
        #[trigger] p.registers[i],
    ) by {
        assert(register_known(p, p.registers[i]));
    }
    assert forall|i: int| 0 <= i < p.mgr.timers.len() implies timer_known(
        q,
        (#[trigger] p.mgr.timers[i]).2,
    ) by {
        assert(timer_known(p, p.mgr.timers[i].2));
    }
}

/// The replies may change, as long as none is lost.
pub proof fn lemma_inv_waits<T, W>(p: PoolView<T, W>, q: PoolView<T, W>)
    requires
        pool_inv(p),
        q.waits.len() >= p.waits.len(),
        q.shutdowns.len() >= p.shutdowns.len(),
        forall|i: int|
            0 <= i < q.waits.len() ==> reply_known(p.queue.cells, #[trigger] q.waits[i]),
        q.queue == p.queue,
        q.registers == p.registers,
        q.acquire_timeout == p.acquire_timeout,
        q.mgr == p.mgr,
    ensures
        pool_inv(q),
{
    lemma_inv_rest(p, q);
}

/// A request may be made about something that is there.
pub proof fn lemma_inv_register<T, W>(p: PoolView<T, W>, q: PoolView<T, W>, register: Register)
    requires
        pool_inv(p),
        pool_inv(PoolView { registers: p.registers, ..q }),
        q.registers == p.registers.push(register),
        register_known(q, register),
        q.waits.len() >= p.waits.len(),
        q.shutdowns.len() >= p.shutdowns.len(),
        q.queue.cells.len() >= p.queue.cells.len(),
        q.acquire_timeout == p.acquire_timeout,
        q.mgr == p.mgr,
    ensures
        pool_inv(q),
{
    lemma_inv_rest(p, q);
    assert forall|i: int| 0 <= i < q.registers.len() implies register_known(
        q,
        #[trigger] q.registers[i],
    ) by {
        if i < p.registers.len() {
            assert(q.registers[i] == p.registers[i]);
        }
    }
    let r = PoolView { registers: p.registers, ..q };
    assert forall|i: int| 0 <= i < q.waits.len() implies reply_known(
        q.queue.cells,
        #[trigger] q.waits[i],
    ) by {
        assert(reply_known(r.queue.cells, r.waits[i]));
    }
}

/// The manager may take requests off the queue, and take note of who waits.
pub proof fn lemma_inv_mgr<T, W>(p: PoolView<T, W>, q: PoolView<T, W>)
    requires
        pool_inv(p),
        q == (PoolView { registers: q.registers, mgr: q.mgr, ..p }),
        forall|i: int|
            0 <= i < q.registers.len() ==> p.registers.contains(#[trigger] q.registers[i]),
        q.mgr.repo.no_duplicates(),
        forall|i: int|
            0 <= i < q.mgr.repo.len() ==> known(p.queue.cells, #[trigger] q.mgr.repo[i]),
        q.mgr.timers == p.mgr.timers,
        q.mgr.timer_id == p.mgr.timer_id,
        forall|i: int|
            0 <= i < q.mgr.waiters.len() ==> awaited(p.waits, #[trigger] q.mgr.waiters[i]),
    ensures
        pool_inv(q),
{
    lemma_inv_rest(p, q);
    assert forall|i: int| 0 <= i < q.registers.len() implies register_known(
        q,
        #[trigger] q.registers[i],
    ) by {
        assert(p.registers.contains(q.registers[i]));
    }
}

/// The manager may remember other locks, as long as they are in the store.
pub proof fn lemma_inv_repo<T, W>(p: PoolView<T, W>, q: PoolView<T, W>)
    requires
        pool_inv(p),
        q == with_mgr(p, ManagerView { repo: q.mgr.repo, ..p.mgr }),
        q.mgr.repo.no_duplicates(),
        forall|i: int|
            0 <= i < q.mgr.repo.len() ==> known(p.queue.cells, #[trigger] q.mgr.repo[i]),
    ensures
        pool_inv(q),
{
    assert(q.mgr.waiters == p.mgr.waiters);
    lemma_inv_rest(p, q);
}

/// A timer may be set for something that is there.
pub proof fn lemma_inv_timer<T, W>(p: PoolView<T, W>, at: u128, timer: Timer)
    requires
        pool_inv(p),
        timer_known(p, timer),
        p.mgr.timer_id < usize::MAX,
        ordered(after_set_timer(p.mgr, at, timer).timers),
        numbered_up_to(after_set_timer(p.mgr, at, timer).timers, p.mgr.timer_id + 1),
    ensures
        pool_inv(with_mgr(p, after_set_timer(p.mgr, at, timer))),
{
    let m = after_set_timer(p.mgr, at, timer);
    let place = crate::timers::due_before(p.mgr.timers, at + 1) as int;
    crate::timers::lemma_split(p.mgr.timers, at + 1);
    let q = with_mgr(p, m);
    lemma_inv_rest(p, q);
    assert forall|i: int| 0 <= i < m.timers.len() implies timer_known(
        q,
        (#[trigger] m.timers[i]).2,
    ) by {
        if i < place {
            assert(m.timers[i] == p.mgr.timers[i]);
        } else if i > place {
            assert(m.timers[i] == p.mgr.timers[i - 1]);
        }
    }
}

} // verus!
