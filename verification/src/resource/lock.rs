//! Locks around resources.
//!
//! A store holds the locks. Whoever holds the guard of a lock owns the resource
//! until the guard goes back to the store.

use vstd::prelude::*;

verus! {

/// What a lock guards.
pub enum Cell<I, T> {
    /// A guard is out.
    Held,
    /// What is known about the resource, and the resource if there is one.
    Free(I, Option<T>),
}

/// A lock, by its place in the store. A place is never used again.
#[derive(Clone, Copy, Debug, PartialEq, Eq, Hash, Structural)]
pub struct ResourceLock {
    id: usize,
}

/// The right to use what a lock guards.
#[derive(Debug)]
pub struct ResourceGuard<I, T> {
    lock: ResourceLock,
    info: I,
    value: Option<T>,
}

/// What a guard gives access to.
pub ghost struct GuardView<I, T> {
    /// The lock of the guard.
    pub lock: ResourceLock,
    /// What is known about the resource.
    pub info: I,
    /// The resource, if there is one.
    pub value: Option<T>,
}

impl<I, T> View for ResourceGuard<I, T> {
    type V = GuardView<I, T>;

    closed spec fn view(&self) -> GuardView<I, T> {
        GuardView { lock: self.lock, info: self.info, value: self.value }
    }
}

impl ResourceLock {
    /// The place of the lock in its store.
    pub closed spec fn id(self) -> int {
        self.id as int
    }

    /// The lock at a place.
    pub closed spec fn at(id: usize) -> ResourceLock {
        ResourceLock { id }
    }

    /// A lock is determined by its place.
    pub broadcast proof fn lemma_at(id: usize)
        ensures
            (#[trigger] ResourceLock::at(id)).id() == id,
    {
    }

    /// Two locks are the same if they have the same place.
    pub broadcast proof fn lemma_same(a: ResourceLock, b: ResourceLock)
        requires
            #[trigger] a.id() == #[trigger] b.id(),
        ensures
            a == b,
    {
    }

    /// The number that stands for the lock.
    pub fn number(self) -> (r: usize)
        ensures
            r == self.id(),
            ResourceLock::at(r) == self,
    {
        self.id
    }

    /// The lock that a number stands for.
    pub fn numbered(id: usize) -> (r: Self)
        ensures
            r == ResourceLock::at(id),
    {
        ResourceLock { id }
    }
}

impl<I, T> ResourceGuard<I, T> {
    /// The guard that gives access to something.
    pub closed spec fn of(v: GuardView<I, T>) -> ResourceGuard<I, T> {
        ResourceGuard { lock: v.lock, info: v.info, value: v.value }
    }

    /// A guard is determined by what it gives access to.
    pub broadcast proof fn lemma_of(v: GuardView<I, T>)
        ensures
            (#[trigger] ResourceGuard::of(v))@ == v,
    {
    }

    /// A guard is determined by what it gives access to.
    pub broadcast proof fn lemma_view(guard: ResourceGuard<I, T>)
        ensures
            ResourceGuard::of(#[trigger] guard@) == guard,
    {
    }

    /// The lock of this guard.
    pub fn as_lock(&self) -> (r: ResourceLock)
        ensures
            r == self@.lock,
    {
        self.lock
    }

    /// What is known about the resource.
    pub fn info(&self) -> (r: &I)
        ensures
            *r == self@.info,
    {
        &self.info
    }

    /// What is known about the resource.
    pub fn info_mut(&mut self) -> (r: &mut I)
        ensures
            *r == old(self)@.info,
            final(self)@ == (GuardView::<I, T> { info: *final(r), ..old(self)@ }),
    {
        &mut self.info
    }

    /// The resource, if there is one.
    pub fn as_ref(&self) -> (r: Option<&T>)
        ensures
            match self@.value {
                Some(value) => r == Some(&value),
                None => r is None,
            },
    {
        self.value.as_ref()
    }

    /// The place of the resource.
    pub fn value_mut(&mut self) -> (r: &mut Option<T>)
        ensures
            *r == old(self)@.value,
            final(self)@ == (GuardView::<I, T> { value: *final(r), ..old(self)@ }),
    {
        &mut self.value
    }

    /// Take the resource out.
    pub fn take(&mut self) -> (r: Option<T>)
        ensures
            r == old(self)@.value,
            final(self)@ == (GuardView::<I, T> { value: None, ..old(self)@ }),
    {
        self.value.take()
    }

    /// Put a resource in. Returns the one that was there.
    pub fn replace(&mut self, value: T) -> (r: Option<T>)
        ensures
            r == old(self)@.value,
            final(self)@ == (GuardView::<I, T> { value: Some(value), ..old(self)@ }),
    {
        let before: Option<T> = self.value.take();
        self.value = Some(value);
        before
    }

    /// Check whether there is a resource.
    pub fn is_some(&self) -> (r: bool)
        ensures
            r == (self@.value is Some),
    {
        self.value.is_some()
    }

    /// Check whether there is no resource.
    pub fn is_none(&self) -> (r: bool)
        ensures
            r == (self@.value is None),
    {
        self.value.is_none()
    }
}

/// Check that a lock is in a store.
pub open spec fn known<I, T>(cells: Seq<Cell<I, T>>, lock: ResourceLock) -> bool {
    0 <= lock.id() < cells.len()
}

/// Check that a guard of a lock is out.
pub open spec fn held<I, T>(cells: Seq<Cell<I, T>>, lock: ResourceLock) -> bool {
    known(cells, lock) && cells[lock.id()] is Held
}

/// Check that a lock guards nothing, for good.
pub open spec fn vacant<I, T>(cells: Seq<Cell<I, T>>, lock: ResourceLock) -> bool {
    match cells[lock.id()] {
        Cell::Free(_, None) => true,
        _ => false,
    }
}

/// Check that a lock guards a resource that nobody uses.
pub open spec fn ready<I, T>(cells: Seq<Cell<I, T>>, lock: ResourceLock) -> bool {
    match cells[lock.id()] {
        Cell::Free(_, Some(_)) => true,
        _ => false,
    }
}

/// The store after a guard went out.
pub open spec fn after_lock<I, T>(cells: Seq<Cell<I, T>>, lock: ResourceLock) -> Seq<Cell<I, T>> {
    cells.update(lock.id(), Cell::Held)
}

/// The store after a guard went back.
pub open spec fn after_unlock<I, T>(
    cells: Seq<Cell<I, T>>,
    guard: GuardView<I, T>,
) -> Seq<Cell<I, T>> {
    cells.update(guard.lock.id(), Cell::Free(guard.info, guard.value))
}

/// The store after a guard moved to a new lock.
pub open spec fn after_detach<I, T>(cells: Seq<Cell<I, T>>, guard: GuardView<I, T>) -> Seq<
    Cell<I, T>,
> {
    cells.update(guard.lock.id(), Cell::Free(guard.info, None)).push(Cell::Held)
}

/// One if there is a resource, be it in use, unused or about to be created.
pub open spec fn occupying<I, T>(cell: Cell<I, T>) -> nat {
    match cell {
        Cell::Free(_, None) => 0,
        _ => 1,
    }
}

/// The number of resources behind locks, be they in use, unused or about to be
/// created.
pub open spec fn allocated<I, T>(cells: Seq<Cell<I, T>>) -> nat
    decreases cells.len(),
{
    if cells.len() == 0 {
        0
    } else {
        allocated(cells.drop_last()) + occupying(cells.last())
    }
}

/// What happens behind a lock changes the number of resources by as much.
pub proof fn lemma_allocated_update<I, T>(cells: Seq<Cell<I, T>>, i: int, cell: Cell<I, T>)
    requires
        0 <= i < cells.len(),
    ensures
        allocated(cells.update(i, cell)) + occupying(cells[i]) == allocated(cells) + occupying(
            cell,
        ),
        allocated(cells) >= occupying(cells[i]),
    decreases cells.len(),
{
    let after = cells.update(i, cell);
    if i == cells.len() - 1 {
        assert(after.drop_last() =~= cells.drop_last());
    } else {
        assert(after.drop_last() =~= cells.drop_last().update(i, cell));
        lemma_allocated_update(cells.drop_last(), i, cell);
    }
}

/// A new lock counts for what is behind it.
pub proof fn lemma_allocated_push<I, T>(cells: Seq<Cell<I, T>>, cell: Cell<I, T>)
    ensures
        allocated(cells.push(cell)) == allocated(cells) + occupying(cell),
{
    assert(cells.push(cell).drop_last() =~= cells);
}

/// There are no more resources than locks.
pub proof fn lemma_allocated_len<I, T>(cells: Seq<Cell<I, T>>)
    ensures
        allocated(cells) <= cells.len(),
    decreases cells.len(),
{
    if cells.len() > 0 {
        lemma_allocated_len(cells.drop_last());
    }
}

/// The locks around a number of resources.
pub struct Store<I, T> {
    cells: Vec<Cell<I, T>>,
}

impl<I, T> View for Store<I, T> {
    type V = Seq<Cell<I, T>>;

    closed spec fn view(&self) -> Seq<Cell<I, T>> {
        self.cells@
    }
}

impl<I: Copy, T> Store<I, T> {
    /// Create a store without locks.
    pub fn new() -> (r: Self)
        ensures
            r@ == Seq::<Cell<I, T>>::empty(),
    {
        Store { cells: Vec::new() }
    }

    /// Create a lock.
    pub fn add(&mut self, info: I, value: Option<T>) -> (r: ResourceLock)
        requires
            old(self)@.len() < usize::MAX,
        ensures
            r.id() == old(self)@.len(),
            final(self)@ == old(self)@.push(Cell::Free(info, value)),
    {
        let id: usize = self.cells.len();
        self.cells.push(Cell::Free(info, value));
        ResourceLock { id }
    }

    /// Check whether a guard is out.
    pub fn is_locked(&self, lock: ResourceLock) -> (r: bool)
        requires
            known(self@, lock),
        ensures
            r == held(self@, lock),
    {
        matches!(self.cells[lock.id], Cell::Held)
    }

    /// Check whether the lock guards nothing.
    pub fn is_none(&self, lock: ResourceLock) -> (r: bool)
        requires
            known(self@, lock),
        ensures
            r == vacant(self@, lock),
    {
        matches!(self.cells[lock.id], Cell::Free(_, None))
    }

    /// Get the guard, unless it is out.
    pub fn try_lock(&mut self, lock: ResourceLock) -> (r: Option<ResourceGuard<I, T>>)
        requires
            known(old(self)@, lock),
        ensures
            match old(self)@[lock.id()] {
                Cell::Held => r is None && final(self)@ == old(self)@,
                Cell::Free(info, value) => {
                    &&& r matches Some(guard)
                    &&& guard@ == (GuardView::<I, T> { lock, info, value })
                    &&& final(self)@ == after_lock(old(self)@, lock)
                },
            },
    {
        let mut cell: Cell<I, T> = Cell::Held;
        let place: &mut Cell<I, T> = &mut self.cells[lock.id];
        core::mem::swap(place, &mut cell);
        match cell {
            Cell::Held => {
                assert(self@ =~= old(self)@);
                None
            },
            Cell::Free(info, value) => Some(ResourceGuard { lock, info, value }),
        }
    }

    /// Give a guard back.
    pub fn unlock(&mut self, guard: ResourceGuard<I, T>) -> (r: ResourceLock)
        requires
            known(old(self)@, guard@.lock),
        ensures
            r == guard@.lock,
            final(self)@ == after_unlock(old(self)@, guard@),
    {
        let lock: ResourceLock = guard.lock;
        self.cells[lock.id] = Cell::Free(guard.info, guard.value);
        lock
    }

    /// Move a resource to a new lock, of which the returned guard is out. The
    /// old one guards nothing from then on.
    pub fn detach(&mut self, guard: ResourceGuard<I, T>) -> (r: ResourceGuard<I, T>)
        requires
            known(old(self)@, guard@.lock),
            old(self)@.len() < usize::MAX,
        ensures
            r@ == (GuardView::<I, T> { lock: ResourceLock::at(old(self)@.len() as usize), ..guard@ }),
            final(self)@ == after_detach(old(self)@, guard@),
    {
        self.cells[guard.lock.id] = Cell::Free(guard.info, None);
        let id: usize = self.cells.len();
        self.cells.push(Cell::Held);
        ResourceGuard { lock: ResourceLock { id }, info: guard.info, value: guard.value }
    }

    /// Take out what a lock guards, if the caller has the only handle to it.
    pub fn try_unwrap(&mut self, lock: ResourceLock, only: bool) -> (r: Result<
        (I, Option<T>),
        ResourceLock,
    >)
        requires
            known(old(self)@, lock),
            only ==> !held(old(self)@, lock),
        ensures
            match old(self)@[lock.id()] {
                Cell::Free(info, value) if only => {
                    &&& r == Ok::<(I, Option<T>), ResourceLock>((info, value))
                    &&& final(self)@ == after_unlock(
                        old(self)@,
                        GuardView::<I, T> { lock, info, value: None },
                    )
                },
                _ => {
                    &&& r == Err::<(I, Option<T>), ResourceLock>(lock)
                    &&& final(self)@ == old(self)@
                },
            },
    {
        if only {
            match self.try_lock(lock) {
                Some(guard) => {
                    self.cells[lock.id] = Cell::Free(guard.info, None);
                    assert(self@ =~= after_unlock(
                        old(self)@,
                        GuardView::<I, T> { value: None, ..guard@ },
                    ));
                    Ok((guard.info, guard.value))
                },
                None => Err(lock),
            }
        } else {
            Err(lock)
        }
    }
}

/// A guard goes out at most once at a time.
pub proof fn law_exclusive<I, T>(cells: Seq<Cell<I, T>>, lock: ResourceLock)
    requires
        known(cells, lock),
    ensures
        held(after_lock(cells, lock), lock),
        forall|other: ResourceLock|
            known(cells, other) && other != lock ==> #[trigger] after_lock(
                cells,
                lock,
            )[other.id()] == cells[other.id()],
{
}

/// Whoever locks next finds what the guard held when it went back.
pub proof fn law_unlock_keeps<I, T>(cells: Seq<Cell<I, T>>, guard: GuardView<I, T>)
    requires
        held(cells, guard.lock),
    ensures
        after_unlock(cells, guard)[guard.lock.id()] == Cell::Free(guard.info, guard.value),
        ready(after_unlock(cells, guard), guard.lock) <==> guard.value is Some,
        vacant(after_unlock(cells, guard), guard.lock) <==> guard.value is None,
        after_lock(after_unlock(cells, guard), guard.lock) =~= cells,
{
}

/// A resource that moved to a new lock cannot be had through the old one.
pub proof fn law_detach_forgets<I, T>(cells: Seq<Cell<I, T>>, guard: GuardView<I, T>)
    requires
        held(cells, guard.lock),
    ensures
        vacant(after_detach(cells, guard), guard.lock),
        after_detach(cells, guard)[cells.len() as int] is Held,
        forall|other: ResourceLock|
            known(cells, other) && other != guard.lock ==> #[trigger] after_detach(
                cells,
                guard,
            )[other.id()] == cells[other.id()],
{
}

} // verus!
