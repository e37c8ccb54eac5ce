//! What the users of such a pool and its manager share.

use vstd::prelude::*;

use crate::lifecycle::info::{borrowed_info, ResourceInfo};
use crate::queue::{self, Coded, Entry};
use crate::resource::lock::{
    after_detach, after_lock, after_unlock, known, vacant, Cell, GuardView, ResourceGuard,
    ResourceLock, Store,
};
use crate::resource::repo::occupied;
use crate::shared::{guard_at, in_time, later, live_idle};

verus! {

broadcast use {ResourceLock::lemma_at, ResourceLock::lemma_same};

/// News for the manager.
#[derive(Clone, Copy, Debug, PartialEq, Eq, Structural)]
pub enum QueueEvent {
    /// A lock was created for a resource.
    Created(ResourceLock),
    /// There is no resource behind a lock any more.
    Disposed(ResourceLock),
    /// A resource is to be looked after at a time if it is still unused.
    Verify(u128, ResourceLock),
}

/// The lock that an event is about.
pub open spec fn event_lock(event: QueueEvent) -> ResourceLock {
    match event {
        QueueEvent::Created(lock) => lock,
        QueueEvent::Disposed(lock) => lock,
        QueueEvent::Verify(_, lock) => lock,
    }
}

impl Coded for QueueEvent {
    open spec fn decoded(entry: Entry) -> QueueEvent {
        if entry.0 == 0 {
            QueueEvent::Created(ResourceLock::at(entry.2))
        } else if entry.0 == 1 {
            QueueEvent::Disposed(ResourceLock::at(entry.2))
        } else {
            QueueEvent::Verify(entry.1, ResourceLock::at(entry.2))
        }
    }

    fn encode(self) -> (r: Entry) {
        match self {
            QueueEvent::Created(lock) => (0, 0, lock.number()),
            QueueEvent::Disposed(lock) => (1, 0, lock.number()),
            QueueEvent::Verify(at, lock) => (2, at, lock.number()),
        }
    }

    fn decode(entry: Entry) -> (r: QueueEvent) {
        if entry.0 == 0 {
            QueueEvent::Created(ResourceLock::numbered(entry.2))
        } else if entry.0 == 1 {
            QueueEvent::Disposed(ResourceLock::numbered(entry.2))
        } else {
            QueueEvent::Verify(entry.1, ResourceLock::numbered(entry.2))
        }
    }
}

/// What is shared.
#[verifier::ext_equal]
pub ghost struct QueueView<T> {
    /// Whether somebody waits for a resource.
    pub busy: bool,
    /// The number of resources.
    pub count: usize,
    /// The news for the manager.
    pub events: Seq<QueueEvent>,
    /// The locks of resources that were returned, the one that waits longest in
    /// front.
    pub idle: Seq<ResourceLock>,
    /// How long a resource may be unused before it is looked after.
    pub idle_timeout: Option<u128>,
    /// The highest number of resources, if there is a limit.
    pub max_count: Option<usize>,
    /// The number of resources that is kept.
    pub min_count: usize,
    /// Whether the manager is to be woken.
    pub notified: bool,
    /// The locks.
    pub cells: Seq<Cell<ResourceInfo, T>>,
}

/// Every lock that is waiting somewhere is in the store.
pub open spec fn queue_inv<T>(s: QueueView<T>) -> bool {
    &&& forall|i: int| 0 <= i < s.idle.len() ==> known(s.cells, #[trigger] s.idle[i])
    &&& forall|i: int|
        0 <= i < s.events.len() ==> known(s.cells, event_lock(#[trigger] s.events[i]))
}

/// Nothing is shared yet.
pub open spec fn fresh_queue<T>(
    min_count: usize,
    max_count: Option<usize>,
    idle_timeout: Option<u128>,
) -> QueueView<T> {
    QueueView {
        busy: false,
        count: 0,
        events: Seq::empty(),
        idle: Seq::empty(),
        idle_timeout,
        max_count,
        min_count,
        notified: false,
        cells: Seq::empty(),
    }
}

/// A guard with the time at which its resource was returned.
pub open spec fn returned<T>(
    s: QueueView<T>,
    guard: GuardView<ResourceInfo, T>,
    now: u128,
) -> GuardView<ResourceInfo, T> {
    GuardView {
        info: ResourceInfo {
            last_idle: Some(now),
            verify_at: later(now, s.idle_timeout),
            ..guard.info
        },
        ..guard
    }
}

/// What is there after a resource was returned.
///
/// If it was disposed of, it is no longer counted. Otherwise it is looked after in
/// time, and kept for the next user, if there is an idle timeout; it is kept for
/// whoever waits in any case.
pub open spec fn after_release<T>(
    s: QueueView<T>,
    guard: GuardView<ResourceInfo, T>,
    now: u128,
) -> QueueView<T> {
    if guard.value is None {
        QueueView {
            count: s.count.wrapping_sub(1),
            cells: after_unlock(s.cells, guard),
            events: s.events.push(QueueEvent::Disposed(guard.lock)),
            notified: true,
            ..s
        }
    } else {
        let verify_at = later(now, s.idle_timeout);
        QueueView {
            cells: after_unlock(s.cells, returned(s, guard, now)),
            events: match verify_at {
                Some(at) => s.events.push(QueueEvent::Verify(at, guard.lock)),
                None => s.events,
            },
            idle: if verify_at is Some || s.busy {
                s.idle.push(guard.lock)
            } else {
                s.idle
            },
            notified: true,
            ..s
        }
    }
}

/// The resource that is handed out next.
pub open spec fn next_idle<T>(s: QueueView<T>, now: u128) -> Option<GuardView<ResourceInfo, T>> {
    let live = live_idle(s.idle, s.cells);
    if live.len() == 0 {
        None
    } else {
        let guard = guard_at(s.cells, live[0]);
        Some(GuardView { info: borrowed_info(guard.info, now), ..guard })
    }
}

/// What is there after a resource was handed out, if there was one.
pub open spec fn after_acquire<T>(s: QueueView<T>) -> QueueView<T> {
    let live = live_idle(s.idle, s.cells);
    if live.len() == 0 {
        QueueView { idle: live, ..s }
    } else {
        QueueView { idle: live.drop_first(), cells: after_lock(s.cells, live[0]), ..s }
    }
}

/// What the users of a pool and its manager share.
pub struct Queue<T> {
    busy: bool,
    count: usize,
    event_queue: queue::Queue<QueueEvent>,
    idle_queue: queue::Queue<ResourceLock>,
    idle_timeout: Option<u128>,
    max_count: Option<usize>,
    min_count: usize,
    notified: bool,
    store: Store<ResourceInfo, T>,
}

impl<T> View for Queue<T> {
    type V = QueueView<T>;

    closed spec fn view(&self) -> QueueView<T> {
        QueueView {
            busy: self.busy,
            count: self.count,
            events: self.event_queue.items(),
            idle: self.idle_queue.items(),
            idle_timeout: self.idle_timeout,
            max_count: self.max_count,
            min_count: self.min_count,
            notified: self.notified,
            cells: self.store@,
        }
    }
}

impl<T> Queue<T> {
    /// The queues take in everything, and what waits in them is in the store.
    pub closed spec fn wf(&self) -> bool {
        &&& self.event_queue.boundless()
        &&& self.idle_queue.boundless()
        &&& queue_inv(self@)
    }

    /// What waits is in the store.
    pub broadcast proof fn lemma_wf(&self)
        requires
            #[trigger] self.wf(),
        ensures
            queue_inv(self@),
    {
    }

    /// Start with nothing.
    pub fn new(min_count: usize, max_count: Option<usize>, idle_timeout: Option<u128>) -> (r: Self)
        ensures
            r.wf(),
            r@ == fresh_queue::<T>(min_count, max_count, idle_timeout),
    {
        Queue {
            busy: false,
            count: 0,
            event_queue: queue::Queue::unbounded(),
            idle_queue: queue::Queue::unbounded(),
            idle_timeout,
            max_count,
            min_count,
            notified: false,
            store: Store::new(),
        }
    }

    /// Have the manager woken.
    pub fn notify(&mut self)
        requires
            old(self).wf(),
        ensures
            final(self).wf(),
            final(self)@ == (QueueView { notified: true, ..old(self)@ }),
    {
        self.notified = true;
    }

    /// Check whether the manager is to be woken, which is then up to the caller.
    pub fn take_notified(&mut self) -> (r: bool)
        requires
            old(self).wf(),
        ensures
            final(self).wf(),
            r == old(self)@.notified,
            final(self)@ == (QueueView { notified: false, ..old(self)@ }),
    {
        let notified: bool = self.notified;
        self.notified = false;
        notified
    }

    /// Say whether somebody waits for a resource.
    pub fn set_busy(&mut self, busy: bool)
        requires
            old(self).wf(),
        ensures
            final(self).wf(),
            final(self)@ == (QueueView { busy, ..old(self)@ }),
    {
        self.busy = busy;
    }

    /// Check whether somebody waits for a resource.
    pub fn is_busy(&self) -> (r: bool)
        ensures
            r == self@.busy,
    {
        self.busy
    }

    /// The number of resources.
    pub fn count(&self) -> (r: usize)
        ensures
            r == self@.count,
    {
        self.count
    }

    /// The highest number of resources, if there is a limit.
    pub fn max_count(&self) -> (r: Option<usize>)
        ensures
            r == self@.max_count,
    {
        self.max_count
    }

    /// The number of resources that is kept.
    pub fn min_count(&self) -> (r: usize)
        ensures
            r == self@.min_count,
    {
        self.min_count
    }

    /// Check whether anything was returned and not handed out again.
    pub fn have_idle(&self) -> (r: bool)
        ensures
            r == (self@.idle.len() > 0),
    {
        !self.idle_queue.is_empty()
    }

    /// Set the number of resources, unless it has changed. Returns what it was.
    pub fn try_update_count(&mut self, prev_count: usize, count: usize) -> (r: Result<
        usize,
        usize,
    >)
        requires
            old(self).wf(),
        ensures
            final(self).wf(),
            r == (if old(self)@.count == prev_count {
                Ok::<usize, usize>(prev_count)
            } else {
                Err::<usize, usize>(old(self)@.count)
            }),
            final(self)@ == (if old(self)@.count == prev_count {
                QueueView { count, ..old(self)@ }
            } else {
                old(self)@
            }),
    {
        if self.count == prev_count {
            self.count = count;
            Ok(prev_count)
        } else {
            Err(self.count)
        }
    }

    /// The next piece of news.
    pub fn pop_event(&mut self) -> (r: Option<QueueEvent>)
        requires
            old(self).wf(),
        ensures
            final(self).wf(),
            r == (if old(self)@.events.len() > 0 {
                Some(old(self)@.events[0])
            } else {
                None
            }),
            final(self)@ == (if old(self)@.events.len() > 0 {
                QueueView { events: old(self)@.events.drop_first(), ..old(self)@ }
            } else {
                old(self)@
            }),
    {
        match self.event_queue.pop() {
            Ok(event) => Some(event),
            Err(_) => None,
        }
    }

    /// Create a lock without a resource, tell the manager, and get its guard.
    pub fn create_lock(&mut self, now: u128) -> (r: ResourceGuard<ResourceInfo, T>)
        requires
            old(self).wf(),
            old(self)@.cells.len() < usize::MAX,
        ensures
            final(self).wf(),
            r@ == (GuardView {
                lock: ResourceLock::at(old(self)@.cells.len() as usize),
                info: crate::lifecycle::info::fresh_info(now),
                value: None::<T>,
            }),
            final(self)@ == (QueueView {
                cells: old(self)@.cells.push(Cell::Held),
                events: old(self)@.events.push(QueueEvent::Created(r@.lock)),
                notified: true,
                ..old(self)@
            }),
    {
        let lock: ResourceLock = self.store.add(ResourceInfo::default(now), None);
        match self.store.try_lock(lock) {
            Some(guard) => {
                assert(self.store@ =~= old(self)@.cells.push(Cell::Held));
                // The queue is never closed or full, so this does not fail
                let _ = self.event_queue.push(QueueEvent::Created(guard.as_lock()));
                self.notify();
                guard
            },
            None => vstd::pervasive::unreached(),
        }
    }

    /// Get the guard of a lock, unless it is out.
    pub fn try_lock(&mut self, lock: ResourceLock) -> (r: Option<ResourceGuard<ResourceInfo, T>>)
        requires
            old(self).wf(),
            known(old(self)@.cells, lock),
        ensures
            final(self).wf(),
            match old(self)@.cells[lock.id()] {
                Cell::Held => r is None && final(self)@ == old(self)@,
                Cell::Free(info, value) => {
                    &&& r matches Some(guard)
                    &&& guard@ == (GuardView { lock, info, value })
                    &&& final(self)@ == (QueueView {
                        cells: after_lock(old(self)@.cells, lock),
                        ..old(self)@
                    })
                },
            },
    {
        self.store.try_lock(lock)
    }

    /// Give a guard back as it is.
    pub fn abandon(&mut self, guard: ResourceGuard<ResourceInfo, T>)
        requires
            old(self).wf(),
            known(old(self)@.cells, guard@.lock),
        ensures
            final(self).wf(),
            final(self)@ == (QueueView {
                cells: after_unlock(old(self)@.cells, guard@),
                ..old(self)@
            }),
    {
        let _ = self.store.unlock(guard);
    }

    /// Forget the locks in a set that guard nothing.
    pub fn retain_occupied(&self, repo: &mut Vec<ResourceLock>)
        requires
            forall|i: int|
                0 <= i < old(repo)@.len() ==> known(self@.cells, #[trigger] old(repo)@[i]),
        ensures
            final(repo)@ == occupied(old(repo)@, self@.cells),
    {
        self.store.retain_occupied(repo);
    }

    /// Move a resource to a new lock.
    pub fn detach(&mut self, guard: ResourceGuard<ResourceInfo, T>) -> (r: ResourceGuard<
        ResourceInfo,
        T,
    >)
        requires
            old(self).wf(),
            known(old(self)@.cells, guard@.lock),
            old(self)@.cells.len() < usize::MAX,
        ensures
            final(self).wf(),
            r@ == (GuardView {
                lock: ResourceLock::at(old(self)@.cells.len() as usize),
                ..guard@
            }),
            final(self)@ == (QueueView {
                cells: after_detach(old(self)@.cells, guard@),
                ..old(self)@
            }),
    {
        self.store.detach(guard)
    }

    /// Return a resource.
    pub fn release(&mut self, res: ResourceGuard<ResourceInfo, T>, now: u128)
        requires
            old(self).wf(),
            known(old(self)@.cells, res@.lock),
            in_time(now, old(self)@.idle_timeout),
        ensures
            final(self).wf(),
            final(self)@ == after_release(old(self)@, res@, now),
    {
        if res.is_none() {
            // The resource was disposed, reduce the current count.
            self.count = self.count.wrapping_sub(1);

            // Trigger removal of the entry from the repo.
            // The queue is never closed or full, so this does not fail.
            let lock: ResourceLock = self.store.unlock(res);
            let _ = self.event_queue.push(QueueEvent::Disposed(lock));
        } else {
            let mut guard: ResourceGuard<ResourceInfo, T> = res;
            let verify_at: Option<u128> = match self.idle_timeout {
                Some(dur) => Some(now + dur),
                None => None,
            };
            guard.info_mut().last_idle = Some(now);
            guard.info_mut().verify_at = verify_at;
            let lock: ResourceLock = self.store.unlock(guard);

            // Add a verify timer.
            if let Some(at) = verify_at {
                let _ = self.event_queue.push(QueueEvent::Verify(at, lock));
            }
            // Return the resource to the idle queue.
            if verify_at.is_some() || self.busy {
                let _ = self.idle_queue.push(lock);
            }
        }
        // Wake the manager because either an idle entry was added
        // or the count was decreased
        self.notify();
    }

    /// Hand out the resource that was returned first, if there is one.
    pub fn try_acquire_idle(&mut self, now: u128) -> (r: Option<ResourceGuard<ResourceInfo, T>>)
        requires
            old(self).wf(),
        ensures
            final(self).wf(),
            match next_idle(old(self)@, now) {
                Some(guard) => r is Some && r->0@ == guard,
                None => r is None,
            },
            final(self)@ == after_acquire(old(self)@),
    {
        loop
            invariant
                self.wf(),
                live_idle(self@.idle, self@.cells) == live_idle(old(self)@.idle, old(self)@.cells),
                self@ == (QueueView { idle: self@.idle, ..old(self)@ }),
            decreases self@.idle.len(),
        {
            let ghost before = self@;
            match self.idle_queue.pop() {
                Ok(res) => {
                    assert(self@.events == before.events);
                    assert(forall|i: int|
                        0 <= i < self@.idle.len() ==> #[trigger] self@.idle[i] == before.idle[i
                            + 1]);
                    if let Some(locked) = self.store.try_lock(res) {
                        let mut guard: ResourceGuard<ResourceInfo, T> = locked;
                        if guard.is_some() {
                            guard.info_mut().borrowed(now);
                            return Some(guard);
                        } else {
                            // Drop the entry - it was taken by the manager.
                            let _ = self.store.unlock(guard);
                            assert(self@.cells =~= old(self)@.cells);
                        }
                    } else {
                        // Drop the entry - currently locked by the manager
                        // and will be disposed or recreated as a new entry.
                    }
                },
                Err(_) => {
                    // No resources in the queue
                    return None;
                },
            }
        }
    }
}

/// Without an idle timeout, and while nobody waits, a resource that is returned is
/// not handed out again.
pub proof fn law_not_reused_without_timeout<T>(
    s: QueueView<T>,
    guard: GuardView<ResourceInfo, T>,
    now: u128,
)
    requires
        s.idle_timeout is None,
        !s.busy,
    ensures
        after_release(s, guard, now).idle == s.idle,
{
}

/// A resource that was disposed of is no longer counted, and the manager learns of
/// it.
pub proof fn law_disposed_is_not_counted<T>(
    s: QueueView<T>,
    guard: GuardView<ResourceInfo, T>,
    now: u128,
)
    requires
        guard.value is None,
        known(s.cells, guard.lock),
        s.count > 0,
    ensures
        after_release(s, guard, now).count == s.count - 1,
        after_release(s, guard, now).events.last() == QueueEvent::Disposed(guard.lock),
        vacant(after_release(s, guard, now).cells, guard.lock),
{
}

} // verus!
