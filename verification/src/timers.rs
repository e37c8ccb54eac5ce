//! Things to be done at given times.

use vstd::prelude::*;

use crate::exchange::exchange;

verus! {

/// A thing to be done: when, its number, and what it is.
pub type TimerEntry<P> = (u128, usize, P);

/// How many entries from the start are due before a time.
pub open spec fn due_before<P>(entries: Seq<TimerEntry<P>>, at: int) -> nat
    decreases entries.len(),
{
    if entries.len() == 0 {
        0
    } else if entries.last().0 < at {
        entries.len()
    } else {
        due_before(entries.drop_last(), at)
    }
}

/// The entries are in order of time, and in order of their numbers where the
/// times are the same.
pub open spec fn ordered<P>(entries: Seq<TimerEntry<P>>) -> bool {
    forall|i: int, j: int|
        0 <= i < j < entries.len() ==> (#[trigger] entries[i]).0 < (#[trigger] entries[j]).0 || (
        entries[i].0 == entries[j].0 && entries[i].1 < entries[j].1)
}

/// No entry has a higher number.
pub open spec fn numbered_up_to<P>(entries: Seq<TimerEntry<P>>, bound: int) -> bool {
    forall|i: int| 0 <= i < entries.len() ==> (#[trigger] entries[i]).1 <= bound
}

/// The entries with one more.
pub open spec fn after_insert<P>(entries: Seq<TimerEntry<P>>, entry: TimerEntry<P>) -> Seq<
    TimerEntry<P>,
> {
    entries.insert(due_before(entries, entry.0 + 1) as int, entry)
}

/// The entries that are due.
pub open spec fn expired<P>(entries: Seq<TimerEntry<P>>, now: u128) -> Seq<TimerEntry<P>> {
    entries.take(due_before(entries, now as int) as int)
}

/// The entries that are not due.
pub open spec fn remaining<P>(entries: Seq<TimerEntry<P>>, now: u128) -> Seq<TimerEntry<P>> {
    entries.skip(due_before(entries, now as int) as int)
}

/// The entries up to a point are those due before a time.
pub proof fn lemma_due_before<P>(entries: Seq<TimerEntry<P>>, at: int, n: int)
    requires
        0 <= n <= entries.len(),
        n > 0 ==> entries[n - 1].0 < at,
        forall|i: int| n <= i < entries.len() ==> (#[trigger] entries[i]).0 >= at,
    ensures
        due_before(entries, at) == n,
    decreases entries.len(),
{
    if entries.len() > n {
        lemma_due_before(entries.drop_last(), at, n);
    }
}

/// In entries that are in order, those due before a time are in front.
pub proof fn lemma_split<P>(entries: Seq<TimerEntry<P>>, at: int)
    requires
        ordered(entries),
    ensures
        due_before(entries, at) <= entries.len(),
        forall|i: int|
            0 <= i < due_before(entries, at) ==> (#[trigger] entries[i]).0 < at,
        forall|i: int|
            due_before(entries, at) <= i < entries.len() ==> (#[trigger] entries[i]).0 >= at,
    decreases entries.len(),
{
    if entries.len() > 0 {
        if entries.last().0 < at {
            assert(forall|i: int|
                0 <= i < entries.len() ==> (#[trigger] entries[i]).0 <= entries.last().0);
        } else {
            lemma_split(entries.drop_last(), at);
            assert(forall|i: int|
                0 <= i < entries.drop_last().len() ==> entries.drop_last()[i] == #[trigger] entries[i]);
        }
    }
}

/// Things to be done, the earliest in front.
pub struct Timers<P> {
    entries: Vec<TimerEntry<P>>,
}

impl<P> View for Timers<P> {
    type V = Seq<TimerEntry<P>>;

    closed spec fn view(&self) -> Seq<TimerEntry<P>> {
        self.entries@
    }
}

impl<P> Timers<P> {
    /// Start with nothing to be done.
    pub fn new() -> (r: Self)
        ensures
            r@ == Seq::<TimerEntry<P>>::empty(),
    {
        Timers { entries: Vec::new() }
    }

    /// Add a thing to be done. Its number is higher than all others.
    pub fn insert(&mut self, at: u128, number: usize, what: P)
        requires
            ordered(old(self)@),
            numbered_up_to(old(self)@, number - 1),
        ensures
            final(self)@ == after_insert(old(self)@, (at, number, what)),
            ordered(final(self)@),
            numbered_up_to(final(self)@, number as int),
            final(self)@.len() == old(self)@.len() + 1,
            final(self)@.len() <= usize::MAX,
    {
        let mut place: usize = self.entries.len();
        while place > 0 && self.entries[place - 1].0 > at
            invariant
                self@ == old(self)@,
                place <= self.entries@.len(),
                forall|i: int| place <= i < self.entries@.len() ==> (#[trigger] self.entries@[i]).0 > at,
            decreases place,
        {
            place = place - 1;
        }
        proof {
            lemma_due_before(self@, at + 1, place as int);
        }
        self.entries.insert(place, (at, number, what));
        assert(self.entries.len() == self@.len());
    }

    /// Take the things that are due.
    pub fn split_off(&mut self, now: u128) -> (r: Vec<TimerEntry<P>>)
        requires
            ordered(old(self)@),
        ensures
            r@ == expired(old(self)@, now),
            final(self)@ == remaining(old(self)@, now),
            ordered(final(self)@),
    {
        let mut place: usize = 0;
        while place < self.entries.len() && self.entries[place].0 < now
            invariant
                self@ == old(self)@,
                place <= self.entries@.len(),
                forall|i: int| 0 <= i < place ==> (#[trigger] self.entries@[i]).0 < now,
            decreases self.entries@.len() - place,
        {
            place = place + 1;
        }
        proof {
            lemma_due_before(self@, now as int, place as int);
        }
        let remain: Vec<TimerEntry<P>> = self.entries.split_off(place);
        exchange(&mut self.entries, remain)
    }

    /// When the next thing is due.
    pub fn first(&self) -> (r: Option<u128>)
        ensures
            r == (if self@.len() > 0 {
                Some(self@[0].0)
            } else {
                None
            }),
    {
        if self.entries.len() > 0 {
            Some(self.entries[0].0)
        } else {
            None
        }
    }

    /// Take all things that are to be done.
    pub fn take_all(&mut self) -> (r: Vec<TimerEntry<P>>)
        ensures
            r@ == old(self)@,
            final(self)@ == Seq::<TimerEntry<P>>::empty(),
    {
        exchange(&mut self.entries, Vec::new())
    }
}

/// What is taken is what is due, and everything else stays, in order.
pub proof fn law_split<P>(entries: Seq<TimerEntry<P>>, now: u128)
    requires
        ordered(entries),
    ensures
        expired(entries, now) + remaining(entries, now) =~= entries,
        forall|i: int| 0 <= i < expired(entries, now).len() ==> (#[trigger] expired(entries, now)[i]).0 < now,
        forall|i: int|
            0 <= i < remaining(entries, now).len() ==> (#[trigger] remaining(entries, now)[i]).0 >= now,
{
    lemma_split(entries, now as int);
}

/// Something that was added stays until it is due, whenever it is due.
pub proof fn law_insert<P>(entries: Seq<TimerEntry<P>>, entry: TimerEntry<P>)
    requires
        ordered(entries),
    ensures
        after_insert(entries, entry).len() == entries.len() + 1,
        after_insert(entries, entry).contains(entry),
        after_insert(entries, entry).remove(due_before(entries, entry.0 + 1) as int) =~= entries,
{
    lemma_split(entries, entry.0 + 1);
    let place = due_before(entries, entry.0 + 1) as int;
    assert(after_insert(entries, entry)[place] == entry);
}

/// The first entry is the earliest.
pub proof fn law_first_is_earliest<P>(entries: Seq<TimerEntry<P>>)
    requires
        ordered(entries),
    ensures
        forall|i: int| 0 <= i < entries.len() ==> entries[0].0 <= (#[trigger] entries[i]).0,
{
}

} // verus!
