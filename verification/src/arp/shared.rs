//! What the users of a pool and its manager share, if the manager says when the
//! pool is busy.
//!
//! Work that is left to the caller piles up here: resources that were disposed
//! of and are to be handed to whoever wants to see them, and the request to wake
//! the manager.

use vstd::prelude::*;

use crate::exchange::exchange;
use crate::queue::Queue;
use crate::resource::info::{acquired_info, ResourceInfo};
use crate::resource::lock::{
    after_lock, after_unlock, known, vacant, Cell, GuardView, ResourceGuard, ResourceLock, Store,
};
use crate::resource::repo::occupied;
use crate::shared::{callable, event_lock, guard_at, in_time, later, live_idle, SharedEvent};

verus! {

broadcast use {ResourceLock::lemma_at, ResourceLock::lemma_same};

/// What is shared.
#[verifier::ext_equal]
pub ghost struct SharedView<T> {
    /// The number of resources.
    pub count: usize,
    /// How often a resource was disposed of.
    pub dispose_count: usize,
    /// The news for the manager.
    pub events: Seq<SharedEvent>,
    /// The locks of resources that were returned, the one that waits longest in
    /// front.
    pub idle: Seq<ResourceLock>,
    /// How long a resource may be unused before it is verified.
    pub idle_timeout: Option<u128>,
    /// The highest number of resources, or zero for no limit.
    pub max_count: usize,
    /// The number of resources that is kept.
    pub min_count: usize,
    /// Whether the manager is to be woken.
    pub notified: bool,
    /// Whether somebody waits for a resource.
    pub busy: bool,
    /// The locks.
    pub cells: Seq<Cell<ResourceInfo, T>>,
    /// The resources that were disposed of.
    pub disposed: Seq<(T, ResourceInfo)>,
}

/// Every lock that is waiting somewhere is in the store.
pub open spec fn shared_inv<T>(s: SharedView<T>) -> bool {
    &&& forall|i: int| 0 <= i < s.idle.len() ==> known(s.cells, #[trigger] s.idle[i])
    &&& forall|i: int|
        0 <= i < s.events.len() ==> known(s.cells, event_lock(#[trigger] s.events[i]))
}

/// Nothing is shared yet.
pub open spec fn fresh_shared<T>(
    min_count: usize,
    max_count: usize,
    idle_timeout: Option<u128>,
) -> SharedView<T> {
    SharedView {
        count: 0,
        dispose_count: 0,
        events: Seq::empty(),
        idle: Seq::empty(),
        idle_timeout,
        max_count,
        min_count,
        notified: false,
        busy: false,
        cells: Seq::empty(),
        disposed: Seq::empty(),
    }
}

/// What was there after a resource was disposed of.
pub open spec fn after_dispose<T>(s: SharedView<T>, guard: GuardView<ResourceInfo, T>) -> SharedView<
    T,
> {
    SharedView {
        count: s.count.wrapping_sub(1),
        disposed: match guard.value {
            Some(value) => s.disposed.push((value, guard.info)),
            None => s.disposed,
        },
        dispose_count: s.dispose_count.wrapping_add(1),
        cells: after_unlock(s.cells, GuardView { value: None, ..guard }),
        notified: true,
        ..s
    }
}

/// Check that a resource may be kept for the next user.
pub open spec fn may_keep<T>(s: SharedView<T>, guard: GuardView<ResourceInfo, T>) -> bool {
    (guard.value is Some && guard.info.reusable) || s.busy
}

/// A guard with the time at which its resource was returned.
pub open spec fn returned<T>(guard: GuardView<ResourceInfo, T>, now: u128) -> GuardView<
    ResourceInfo,
    T,
> {
    GuardView { info: ResourceInfo { last_idle: Some(now), ..guard.info }, ..guard }
}

/// What is there after a resource was kept for the next user.
pub open spec fn after_keep<T>(
    s: SharedView<T>,
    guard: GuardView<ResourceInfo, T>,
    now: u128,
) -> SharedView<T> {
    let verify_at = later(now, s.idle_timeout);
    SharedView {
        cells: after_unlock(
            s.cells,
            GuardView { info: ResourceInfo { verify_at, ..guard.info }, ..guard },
        ),
        events: match verify_at {
            Some(at) => s.events.push(SharedEvent::Verify(at, guard.lock)),
            None => s.events,
        },
        idle: s.idle.push(guard.lock),
        notified: true,
        ..s
    }
}

/// What is there after a resource was returned, of which it was decided whether
/// it is kept.
pub open spec fn after_return<T>(
    s: SharedView<T>,
    guard: GuardView<ResourceInfo, T>,
    kept: bool,
    now: u128,
) -> SharedView<T> {
    if kept {
        after_keep(s, guard, now)
    } else {
        after_dispose(s, guard)
    }
}

/// Check that the hook turns what a guard holds into something else, and says
/// whether to keep it. Without a hook, or without a resource, everything is kept as
/// it is.
pub open spec fn hook_says<T, R: Fn(T, ResourceInfo) -> (T, bool)>(
    hook: Option<R>,
    guard: GuardView<ResourceInfo, T>,
    value: Option<T>,
    kept: bool,
) -> bool {
    if hook is Some && guard.value is Some {
        value is Some && hook->0.ensures((guard.value->0, guard.info), (value->0, kept))
    } else {
        value == guard.value && kept
    }
}

/// Check that returning a resource leads from one state to another.
pub open spec fn released<T, R: Fn(T, ResourceInfo) -> (T, bool)>(
    s: SharedView<T>,
    hook: Option<R>,
    guard: GuardView<ResourceInfo, T>,
    now: u128,
    post: SharedView<T>,
) -> bool {
    let guard = returned(guard, now);
    if may_keep(s, guard) {
        exists|value: Option<T>, kept: bool| #[trigger]
            hook_says(hook, guard, value, kept) && post == after_return(
                s,
                GuardView { value, ..guard },
                kept,
                now,
            )
    } else {
        post == after_dispose(s, guard)
    }
}

/// The resource that is handed out next.
pub open spec fn next_idle<T>(s: SharedView<T>, now: u128) -> Option<GuardView<ResourceInfo, T>> {
    let live = live_idle(s.idle, s.cells);
    if live.len() == 0 {
        None
    } else {
        let guard = guard_at(s.cells, live[0]);
        Some(GuardView { info: acquired_info(guard.info, now), ..guard })
    }
}

/// What is there after a resource was handed out, if there was one.
pub open spec fn after_acquire<T>(s: SharedView<T>) -> SharedView<T> {
    let live = live_idle(s.idle, s.cells);
    if live.len() == 0 {
        SharedView { idle: live, ..s }
    } else {
        SharedView { idle: live.drop_first(), cells: after_lock(s.cells, live[0]), ..s }
    }
}

/// What the users of a pool and its manager share.
pub struct Shared<T, R> {
    count: usize,
    dispose_count: usize,
    event_queue: Queue<SharedEvent>,
    idle_queue: Queue<ResourceLock>,
    idle_timeout: Option<u128>,
    max_count: usize,
    min_count: usize,
    busy: bool,
    notified: bool,
    on_release: Option<R>,
    store: Store<ResourceInfo, T>,
    disposed: Vec<(T, ResourceInfo)>,
}

impl<T, R> View for Shared<T, R> {
    type V = SharedView<T>;

    closed spec fn view(&self) -> SharedView<T> {
        SharedView {
            count: self.count,
            dispose_count: self.dispose_count,
            events: self.event_queue.items(),
            idle: self.idle_queue.items(),
            idle_timeout: self.idle_timeout,
            max_count: self.max_count,
            min_count: self.min_count,
            notified: self.notified,
            busy: self.busy,
            cells: self.store@,
            disposed: self.disposed@,
        }
    }
}

impl<T, R: Fn(T, ResourceInfo) -> (T, bool)> Shared<T, R> {
    /// The queues take in everything, what waits in them is in the store, and
    /// the hook can be called.
    pub closed spec fn wf(&self) -> bool {
        &&& self.event_queue.boundless()
        &&& self.idle_queue.boundless()
        &&& shared_inv(self@)
        &&& callable::<T, R>(self.on_release)
    }

    /// The hook that is asked before a resource is kept.
    pub closed spec fn hook(&self) -> Option<R> {
        self.on_release
    }

    /// What waits is in the store.
    pub broadcast proof fn lemma_wf(&self)
        requires
            #[trigger] self.wf(),
        ensures
            shared_inv(self@),
    {
    }

    /// Start with nothing.
    pub fn new(
        on_release: Option<R>,
        min_count: usize,
        max_count: usize,
        idle_timeout: Option<u128>,
    ) -> (r: Self)
        requires
            callable::<T, R>(on_release),
        ensures
            r.wf(),
            r.hook() == on_release,
            r@ == fresh_shared::<T>(min_count, max_count, idle_timeout),
    {
        Shared {
            count: 0,
            dispose_count: 0,
            event_queue: Queue::unbounded(),
            idle_queue: Queue::unbounded(),
            idle_timeout,
            max_count,
            min_count,
            busy: false,
            notified: false,
            on_release,
            store: Store::new(),
            disposed: Vec::new(),
        }
    }

    /// Dispose of a resource.
    pub fn dispose(&mut self, guard: ResourceGuard<ResourceInfo, T>)
        requires
            old(self).wf(),
            known(old(self)@.cells, guard@.lock),
        ensures
            final(self).wf(),
            final(self).hook() == old(self).hook(),
            final(self)@ == after_dispose(old(self)@, guard@),
    {
        let mut guard: ResourceGuard<ResourceInfo, T> = guard;
        // Reduce the current count
        self.count = self.count.wrapping_sub(1);
        if let Some(res) = guard.take() {
            self.disposed.push((res, *guard.info()));
        }
        // Trigger cleanup of the repo
        self.dispose_count = self.dispose_count.wrapping_add(1);
        let _ = self.store.unlock(guard);
        // Wake the manager to trigger timer and waiter processing
        self.notify();
    }

    /// Check whether resources are for more than one use.
    pub fn can_reuse(&self) -> (r: bool)
        ensures
            r == (self@.idle_timeout is Some),
    {
        self.idle_timeout.is_some()
    }

    /// Give back a guard that was used for something that failed, as it is.
    pub fn abandon(&mut self, guard: ResourceGuard<ResourceInfo, T>)
        requires
            old(self).wf(),
            known(old(self)@.cells, guard@.lock),
        ensures
            final(self).wf(),
            final(self).hook() == old(self).hook(),
            final(self)@ == (SharedView {
                cells: after_unlock(old(self)@.cells, guard@),
                ..old(self)@
            }),
    {
        let _ = self.store.unlock(guard);
    }

    fn check_reuse(&self, guard: &mut ResourceGuard<ResourceInfo, T>) -> (r: bool)
        requires
            self.wf(),
        ensures
            if may_keep(self@, old(guard)@) {
                &&& hook_says(self.hook(), old(guard)@, final(guard)@.value, r)
                &&& final(guard)@ == (GuardView { value: final(guard)@.value, ..old(guard)@ })
            } else {
                !r && final(guard)@ == old(guard)@
            },
    {
        if guard.is_some() && guard.info().reusable || self.busy {
            match &self.on_release {
                Some(check) => {
                    let info: ResourceInfo = *guard.info();
                    match guard.take() {
                        Some(value) => {
                            let result: (T, bool) = check(value, info);
                            let _ = guard.replace(result.0);
                            result.1
                        },
                        None => true,
                    }
                },
                None => true,
            }
        } else {
            self.busy
        }
    }

    /// The number of resources.
    pub fn count(&self) -> (r: usize)
        ensures
            r == self@.count,
    {
        self.count
    }

    /// How often a resource was disposed of.
    pub fn dispose_count(&self) -> (r: usize)
        ensures
            r == self@.dispose_count,
    {
        self.dispose_count
    }

    /// Check whether anything was returned and not handed out again.
    pub fn have_idle(&self) -> (r: bool)
        ensures
            r == (self@.idle.len() > 0),
    {
        !self.idle_queue.is_empty()
    }

    /// Check whether somebody waits for a resource.
    pub fn is_busy(&self) -> (r: bool)
        ensures
            r == self@.busy,
    {
        self.busy
    }

    /// Say whether somebody waits for a resource. Returns what was said before.
    pub fn set_busy(&mut self, busy: bool) -> (r: bool)
        requires
            old(self).wf(),
        ensures
            final(self).wf(),
            final(self).hook() == old(self).hook(),
            r == old(self)@.busy,
            final(self)@ == (SharedView { busy, ..old(self)@ }),
    {
        let before: bool = self.busy;
        self.busy = busy;
        before
    }

    /// The highest number of resources, or zero for no limit.
    pub fn max_count(&self) -> (r: usize)
        ensures
            r == self@.max_count,
    {
        self.max_count
    }

    /// The number of resources that is kept.
    pub fn min_count(&self) -> (r: usize)
        ensures
            r == self@.min_count,
    {
        self.min_count
    }

    /// Have the manager woken.
    pub fn notify(&mut self)
        requires
            old(self).wf(),
        ensures
            final(self).wf(),
            final(self).hook() == old(self).hook(),
            final(self)@ == (SharedView { notified: true, ..old(self)@ }),
    {
        self.notified = true;
    }

    /// Check whether the manager is to be woken, which is then up to the caller.
    pub fn take_notified(&mut self) -> (r: bool)
        requires
            old(self).wf(),
        ensures
            final(self).wf(),
            final(self).hook() == old(self).hook(),
            r == old(self)@.notified,
            final(self)@ == (SharedView { notified: false, ..old(self)@ }),
    {
        let notified: bool = self.notified;
        self.notified = false;
        notified
    }

    /// Take the resources that were disposed of.
    pub fn take_disposed(&mut self) -> (r: Vec<(T, ResourceInfo)>)
        requires
            old(self).wf(),
        ensures
            final(self).wf(),
            final(self).hook() == old(self).hook(),
            r@ == old(self)@.disposed,
            final(self)@ == (SharedView {
                disposed: Seq::<(T, ResourceInfo)>::empty(),
                ..old(self)@
            }),
    {
        exchange(&mut self.disposed, Vec::new())
    }

    /// The next piece of news.
    pub fn pop_event(&mut self) -> (r: Option<SharedEvent>)
        requires
            old(self).wf(),
        ensures
            final(self).wf(),
            final(self).hook() == old(self).hook(),
            r == (if old(self)@.events.len() > 0 {
                Some(old(self)@.events[0])
            } else {
                None
            }),
            final(self)@ == (if old(self)@.events.len() > 0 {
                SharedView { events: old(self)@.events.drop_first(), ..old(self)@ }
            } else {
                old(self)@
            }),
    {
        match self.event_queue.pop() {
            Ok(event) => Some(event),
            Err(_) => None,
        }
    }

    /// Leave a piece of news.
    pub fn push_event(&mut self, event: SharedEvent)
        requires
            old(self).wf(),
            known(old(self)@.cells, event_lock(event)),
        ensures
            final(self).wf(),
            final(self).hook() == old(self).hook(),
            final(self)@ == (SharedView { events: old(self)@.events.push(event), ..old(self)@ }),
    {
        let _ = self.event_queue.push(event);
    }

    /// Create a lock without a resource and get its guard.
    pub fn create_lock(&mut self, info: ResourceInfo) -> (r: ResourceGuard<ResourceInfo, T>)
        requires
            old(self).wf(),
            old(self)@.cells.len() < usize::MAX,
        ensures
            final(self).wf(),
            final(self).hook() == old(self).hook(),
            r@.lock.id() == old(self)@.cells.len(),
            r@.info == info,
            r@.value is None,
            final(self)@ == (SharedView { cells: old(self)@.cells.push(Cell::Held), ..old(self)@ }),
    {
        let lock: ResourceLock = self.store.add(info, None);
        match self.store.try_lock(lock) {
            Some(guard) => {
                assert(self.store@ =~= old(self)@.cells.push(Cell::Held));
                guard
            },
            None => vstd::pervasive::unreached(),
        }
    }

    /// Get the guard of a lock, unless it is out.
    pub fn try_lock(&mut self, lock: ResourceLock) -> (r: Option<ResourceGuard<ResourceInfo, T>>)
        requires
            old(self).wf(),
            known(old(self)@.cells, lock),
        ensures
            final(self).wf(),
            final(self).hook() == old(self).hook(),
            match old(self)@.cells[lock.id()] {
                Cell::Held => r is None && final(self)@ == old(self)@,
                Cell::Free(info, value) => {
                    &&& r matches Some(guard)
                    &&& guard@ == (GuardView { lock, info, value })
                    &&& final(self)@ == (SharedView {
                        cells: after_lock(old(self)@.cells, lock),
                        ..old(self)@
                    })
                },
            },
    {
        self.store.try_lock(lock)
    }

    /// Check whether a lock guards nothing.
    pub fn is_none(&self, lock: ResourceLock) -> (r: bool)
        requires
            known(self@.cells, lock),
        ensures
            r == vacant(self@.cells, lock),
    {
        self.store.is_none(lock)
    }

    /// Forget the locks in a set that guard nothing.
    pub fn retain_occupied(&self, repo: &mut Vec<ResourceLock>)
        requires
            forall|i: int|
                0 <= i < old(repo)@.len() ==> known(self@.cells, #[trigger] old(repo)@[i]),
        ensures
            final(repo)@ == occupied(old(repo)@, self@.cells),
    {
        self.store.retain_occupied(repo);
    }

    /// Move a resource to a new lock.
    pub fn detach(&mut self, guard: ResourceGuard<ResourceInfo, T>) -> (r: ResourceGuard<
        ResourceInfo,
        T,
    >)
        requires
            old(self).wf(),
            known(old(self)@.cells, guard@.lock),
            old(self)@.cells.len() < usize::MAX,
        ensures
            final(self).wf(),
            final(self).hook() == old(self).hook(),
            r@ == (GuardView {
                lock: ResourceLock::at(old(self)@.cells.len() as usize),
                ..guard@
            }),
            final(self)@ == (SharedView {
                cells: crate::resource::lock::after_detach(old(self)@.cells, guard@),
                ..old(self)@
            }),
    {
        self.store.detach(guard)
    }

    /// Return a resource of which it was decided whether it is kept.
    pub fn finish_release(
        &mut self,
        guard: ResourceGuard<ResourceInfo, T>,
        kept: bool,
        now: u128,
    )
        requires
            old(self).wf(),
            known(old(self)@.cells, guard@.lock),
            in_time(now, old(self)@.idle_timeout),
        ensures
            final(self).wf(),
            final(self).hook() == old(self).hook(),
            final(self)@ == after_return(old(self)@, guard@, kept, now),
    {
        if !kept {
            self.dispose(guard);
        } else {
            let mut guard: ResourceGuard<ResourceInfo, T> = guard;
            let verify_at: Option<u128> = match self.idle_timeout {
                Some(dur) => Some(now + dur),
                None => None,
            };
            guard.info_mut().verify_at = verify_at;
            let lock: ResourceLock = self.store.unlock(guard);

            // Add a verify timer
            if let Some(at) = verify_at {
                // The queue is never closed or full, so this does not fail
                let _ = self.event_queue.push(SharedEvent::Verify(at, lock));
            }
            // Return the resource to the idle queue
            let _ = self.idle_queue.push(lock);

            // Wake the manager to trigger timer and waiter processing
            self.notify();
        }
    }

    /// Return a resource.
    ///
    /// It is kept if it may be and the hook says so, and disposed of otherwise.
    pub fn release(&mut self, guard: ResourceGuard<ResourceInfo, T>, now: u128)
        requires
            old(self).wf(),
            known(old(self)@.cells, guard@.lock),
            in_time(now, old(self)@.idle_timeout),
        ensures
            final(self).wf(),
            final(self).hook() == old(self).hook(),
            released(old(self)@, old(self).hook(), guard@, now, final(self)@),
            final(self)@.cells.len() == old(self)@.cells.len(),
    {
        let mut guard: ResourceGuard<ResourceInfo, T> = guard;
        guard.info_mut().last_idle = Some(now);
        let kept: bool = self.check_reuse(&mut guard);
        self.finish_release(guard, kept, now);
    }

    /// Hand out the resource that was returned first, if there is one.
    pub fn try_acquire_idle(&mut self, now: u128) -> (r: Option<ResourceGuard<ResourceInfo, T>>)
        requires
            old(self).wf(),
        ensures
            final(self).wf(),
            final(self).hook() == old(self).hook(),
            match next_idle(old(self)@, now) {
                Some(guard) => r is Some && r->0@ == guard,
                None => r is None,
            },
            final(self)@ == after_acquire(old(self)@),
    {
        loop
            invariant
                self.wf(),
                self.hook() == old(self).hook(),
                live_idle(self@.idle, self@.cells) == live_idle(old(self)@.idle, old(self)@.cells),
                self@ == (SharedView { idle: self@.idle, ..old(self)@ }),
            decreases self@.idle.len(),
        {
            let ghost before = self@;
            match self.idle_queue.pop() {
                Ok(res) => {
                    assert(self@.events == before.events);
                    assert(forall|i: int|
                        0 <= i < self@.idle.len() ==> #[trigger] self@.idle[i] == before.idle[i
                            + 1]);
                    if let Some(locked) = self.store.try_lock(res) {
                        let mut guard: ResourceGuard<ResourceInfo, T> = locked;
                        if guard.is_some() {
                            guard.info_mut().acquired(now);
                            return Some(guard);
                        } else {
                            // Drop the entry - it was taken by the manager.
                            let _ = self.store.unlock(guard);
                            assert(self@.cells =~= old(self)@.cells);
                        }
                    } else {
                        // Drop the entry - currently locked by the manager
                        // and will be disposed or recreated as a new entry.
                    }
                },
                Err(_) => {
                    // No resources in the queue
                    return None;
                },
            }
        }
    }

    /// Set the number of resources, unless it has changed. Returns what it was.
    pub fn try_update_count(&mut self, prev_count: usize, count: usize) -> (r: Result<
        usize,
        usize,
    >)
        requires
            old(self).wf(),
        ensures
            final(self).wf(),
            final(self).hook() == old(self).hook(),
            r == (if old(self)@.count == prev_count {
                Ok::<usize, usize>(prev_count)
            } else {
                Err::<usize, usize>(old(self)@.count)
            }),
            final(self)@ == (if old(self)@.count == prev_count {
                SharedView { count, ..old(self)@ }
            } else {
                old(self)@
            }),
    {
        if self.count == prev_count {
            self.count = count;
            Ok(prev_count)
        } else {
            Err(self.count)
        }
    }
}

} // verus!
