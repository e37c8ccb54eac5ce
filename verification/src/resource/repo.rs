//! Sets of locks.

use vstd::prelude::*;

use crate::resource::lock::{known, vacant, Cell, ResourceLock, Store};

verus! {

/// A set of locks, with one more.
pub open spec fn with_lock(repo: Seq<ResourceLock>, lock: ResourceLock) -> Seq<ResourceLock> {
    if repo.contains(lock) {
        repo
    } else {
        repo.push(lock)
    }
}

/// The locks other than one.
pub open spec fn other_than(lock: ResourceLock) -> spec_fn(ResourceLock) -> bool {
    |other: ResourceLock| other != lock
}

/// The locks that may guard something.
pub open spec fn guarding<I, T>(cells: Seq<Cell<I, T>>) -> spec_fn(ResourceLock) -> bool {
    |lock: ResourceLock| !vacant(cells, lock)
}

/// A set of locks, without one.
pub open spec fn without_lock(repo: Seq<ResourceLock>, lock: ResourceLock) -> Seq<ResourceLock> {
    repo.filter(other_than(lock))
}

/// The locks in a set that may guard something.
pub open spec fn occupied<I, T>(repo: Seq<ResourceLock>, cells: Seq<Cell<I, T>>) -> Seq<
    ResourceLock,
> {
    repo.filter(guarding(cells))
}

/// Choosing from a set gives a smaller set.
pub proof fn lemma_filter(repo: Seq<ResourceLock>, pred: spec_fn(ResourceLock) -> bool)
    ensures
        repo.no_duplicates() ==> repo.filter(pred).no_duplicates(),
        forall|i: int|
            0 <= i < repo.filter(pred).len() ==> repo.contains(#[trigger] repo.filter(pred)[i])
                && pred(repo.filter(pred)[i]),
    decreases repo.len(),
{
    reveal(Seq::filter);
    if repo.len() > 0 {
        let rest = repo.drop_last();
        lemma_filter(rest, pred);
        assert forall|i: int| 0 <= i < repo.filter(pred).len() implies repo.contains(
            #[trigger] repo.filter(pred)[i],
        ) && pred(repo.filter(pred)[i]) by {
            if i < rest.filter(pred).len() {
                assert(repo.filter(pred)[i] == rest.filter(pred)[i]);
                let j = choose|j: int| 0 <= j < rest.len() && rest[j] == rest.filter(pred)[i];
                assert(repo[j] == rest[j]);
            } else {
                assert(repo[repo.len() - 1] == repo.filter(pred)[i]);
            }
        }
        if repo.no_duplicates() {
            assert forall|i: int, j: int|
                0 <= i < repo.filter(pred).len() && 0 <= j < repo.filter(pred).len() && i
                    != j implies repo.filter(pred)[i] != repo.filter(pred)[j] by {
                if i < rest.filter(pred).len() && j < rest.filter(pred).len() {
                    assert(repo.filter(pred)[i] == rest.filter(pred)[i]);
                    assert(repo.filter(pred)[j] == rest.filter(pred)[j]);
                } else {
                    let k = if i < j {
                        i
                    } else {
                        j
                    };
                    assert(repo.filter(pred)[k] == rest.filter(pred)[k]);
                    assert(rest.contains(rest.filter(pred)[k]));
                }
            }
        }
    }
}

/// A set of locks that are in a store stays one when it changes.
pub proof fn lemma_repo<I, T>(repo: Seq<ResourceLock>, cells: Seq<Cell<I, T>>, lock: ResourceLock)
    requires
        repo.no_duplicates(),
        forall|i: int| 0 <= i < repo.len() ==> known(cells, #[trigger] repo[i]),
    ensures
        with_lock(repo, lock).no_duplicates(),
        without_lock(repo, lock).no_duplicates(),
        occupied(repo, cells).no_duplicates(),
        known(cells, lock) ==> forall|i: int|
            0 <= i < with_lock(repo, lock).len() ==> known(
                cells,
                #[trigger] with_lock(repo, lock)[i],
            ),
        forall|i: int|
            0 <= i < without_lock(repo, lock).len() ==> known(
                cells,
                #[trigger] without_lock(repo, lock)[i],
            ),
        forall|i: int|
            0 <= i < occupied(repo, cells).len() ==> known(
                cells,
                #[trigger] occupied(repo, cells)[i],
            ),
{
    lemma_filter(repo, other_than(lock));
    lemma_filter(repo, guarding(cells));
}

/// Check whether a lock is in a set.
pub fn contains(repo: &Vec<ResourceLock>, lock: ResourceLock) -> (r: bool)
    ensures
        r == repo@.contains(lock),
{
    let mut i: usize = 0;
    while i < repo.len()
        invariant
            i <= repo@.len(),
            forall|j: int| 0 <= j < i ==> repo@[j] != lock,
        decreases repo@.len() - i,
    {
        if repo[i] == lock {
            assert(repo@[i as int] == lock);
            return true;
        }
        i = i + 1;
    }
    false
}

/// Add a lock to a set.
pub fn insert(repo: &mut Vec<ResourceLock>, lock: ResourceLock)
    ensures
        final(repo)@ == with_lock(old(repo)@, lock),
{
    if !contains(repo, lock) {
        repo.push(lock);
    }
}

/// Remove a lock from a set.
pub fn remove(repo: &mut Vec<ResourceLock>, lock: ResourceLock)
    ensures
        final(repo)@ == without_lock(old(repo)@, lock),
{
    let mut kept: Vec<ResourceLock> = Vec::new();
    let mut i: usize = 0;
    assert(repo@.take(0) =~= Seq::<ResourceLock>::empty());
    proof {
        reveal(Seq::filter);
    }
    while i < repo.len()
        invariant
            repo@ == old(repo)@,
            i <= repo@.len(),
            kept@ == without_lock(repo@.take(i as int), lock),
        decreases repo@.len() - i,
    {
        proof {
            reveal(Seq::filter);
            assert(repo@.take(i + 1).drop_last() =~= repo@.take(i as int));
        }
        if repo[i] != lock {
            kept.push(repo[i]);
        }
        i = i + 1;
    }
    assert(repo@.take(i as int) =~= repo@);
    *repo = kept;
}

impl<I: Copy, T> Store<I, T> {
    /// Forget the locks in a set that guard nothing.
    pub fn retain_occupied(&self, repo: &mut Vec<ResourceLock>)
        requires
            forall|i: int| 0 <= i < old(repo)@.len() ==> known(self@, #[trigger] old(repo)@[i]),
        ensures
            final(repo)@ == occupied(old(repo)@, self@),
    {
        let mut kept: Vec<ResourceLock> = Vec::new();
        let mut i: usize = 0;
        assert(repo@.take(0) =~= Seq::<ResourceLock>::empty());
        proof {
            reveal(Seq::filter);
        }
        while i < repo.len()
            invariant
                repo@ == old(repo)@,
                i <= repo@.len(),
                forall|j: int| 0 <= j < repo@.len() ==> known(self@, #[trigger] repo@[j]),
                kept@ == occupied(repo@.take(i as int), self@),
            decreases repo@.len() - i,
        {
            proof {
                reveal(Seq::filter);
                assert(repo@.take(i + 1).drop_last() =~= repo@.take(i as int));
            }
            if !self.is_none(repo[i]) {
                kept.push(repo[i]);
            }
            i = i + 1;
        }
        assert(repo@.take(i as int) =~= repo@);
        *repo = kept;
    }
}

} // verus!
