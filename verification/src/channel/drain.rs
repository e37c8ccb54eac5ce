//! Reading a queue to its end.
//!
//! A drain asks the queue and says what to do while there is nothing to read;
//! waiting is up to the caller.

use vstd::prelude::*;

use crate::channel::mpsc;
use crate::channel::single;

verus! {

/// How often a drain asks before it leaves a waker.
pub const ROUNDS: usize = 5;

/// What a drain yields.
#[derive(Clone, Copy, Debug, PartialEq, Eq)]
pub enum DrainStep<T> {
    /// The next value.
    Item(T),
    /// There is and will be no other value.
    Done,
    /// Let others run, and ask again.
    Yield,
    /// Wait to be woken, and ask again.
    Park,
}

/// An iteration over a queue with one reader that waits for values if it is
/// told to.
#[derive(Debug, PartialEq, Eq)]
pub struct Drain {
    wait: bool,
}

impl View for Drain {
    type V = bool;

    /// Whether the drain waits for values.
    closed spec fn view(&self) -> bool {
        self.wait
    }
}

impl Drain {
    /// Start reading.
    pub fn new(wait: bool) -> (r: Self)
        ensures
            r@ == wait,
    {
        Drain { wait }
    }

    /// Ask for the next value.
    ///
    /// A drain that does not wait ends where there is nothing to read. Returns
    /// the waker that is due, too.
    pub fn next<T, W>(&mut self, queue: &mut single::Queue<T, W>, waker: W) -> (r: (
        DrainStep<T>,
        Option<W>,
    ))
        requires
            old(queue).wf(),
            old(self)@ && single::front(old(queue)@) is None ==> crate::option_lock::lockable(
                old(queue)@.waker,
            ),
        ensures
            final(queue).wf(),
            final(self)@ == old(self)@,
            r.0 == (match single::front(old(queue)@) {
                Some(v) => DrainStep::Item(v),
                None => if old(self)@ && !(old(queue)@.items.len() == 0 && old(queue)@.senders
                    == 0) {
                    DrainStep::Park
                } else {
                    DrainStep::Done
                },
            }),
            r.1 == (if single::front(old(queue)@) is None && old(queue)@.items.len() > 0 {
                if old(self)@ {
                    Some(waker)
                } else {
                    single::due(old(queue)@.waker)
                }
            } else {
                None
            }),
            final(queue)@ == single::after_pop_wake(
                old(queue)@,
                if old(self)@ {
                    Some(waker)
                } else {
                    None
                },
            ),
    {
        let left: Option<W> = if self.wait {
            Some(waker)
        } else {
            None
        };
        match queue.pop_wake(left) {
            (Ok(Some(value)), due) => (DrainStep::Item(value), due),
            (Ok(None), due) => {
                if self.wait {
                    (DrainStep::Park, due)
                } else {
                    (DrainStep::Done, due)
                }
            },
            (Err(_), due) => (DrainStep::Done, due),
        }
    }
}

/// An iteration over a queue that asks a few times before it waits.
#[derive(Debug, PartialEq, Eq)]
pub struct Waiting {
    round: usize,
}

impl View for Waiting {
    type V = int;

    /// How often the drain has asked since it last had a value or waited.
    closed spec fn view(&self) -> int {
        self.round as int
    }
}

impl Waiting {
    /// Start reading.
    pub fn new() -> (r: Self)
        ensures
            r@ == 0,
    {
        Waiting { round: 0 }
    }

    /// Ask for the next value.
    ///
    /// Returns the waker that is due, too.
    pub fn next<T, W>(&mut self, queue: &mut mpsc::Queue<T, W>, waker: W) -> (r: (
        DrainStep<T>,
        Option<W>,
    ))
        requires
            old(queue).wf(),
            old(queue)@.items.len() > 0 ==> mpsc::front(old(queue)@) is Some,
            mpsc::front(old(queue)@) is None ==> crate::option_lock::lockable(old(queue)@.waker),
        ensures
            final(queue).wf(),
            r.1 is None,
            match mpsc::popped(old(queue)@) {
                Ok(Some(v)) => r.0 == DrainStep::Item(v) && final(self)@ == 0 && final(queue)@
                    == mpsc::after_pop(old(queue)@),
                Ok(None) => if old(self)@ < ROUNDS {
                    r.0 is Yield && final(self)@ == old(self)@ + 1 && final(queue)@ == old(
                        queue,
                    )@
                } else {
                    r.0 is Park && final(self)@ == 0 && final(queue)@ == mpsc::after_pop_wake(
                        old(queue)@,
                        waker,
                    )
                },
                Err(_) => r.0 is Done && final(self)@ == 0 && (if old(self)@ < ROUNDS {
                    final(queue)@ == old(queue)@
                } else {
                    final(queue)@ == mpsc::after_pop_wake(old(queue)@, waker)
                }),
            },
    {
        if self.round < ROUNDS {
            match queue.pop() {
                Ok(Some(value)) => {
                    self.round = 0;
                    (DrainStep::Item(value), None)
                },
                Ok(None) => {
                    self.round = self.round + 1;
                    (DrainStep::Yield, None)
                },
                Err(_) => {
                    self.round = 0;
                    (DrainStep::Done, None)
                },
            }
        } else {
            self.round = 0;
            match queue.pop_wake(waker) {
                (Ok(Some(value)), due) => (DrainStep::Item(value), due),
                (Ok(None), due) => (DrainStep::Park, due),
                (Err(_), due) => (DrainStep::Done, due),
            }
        }
    }
}

/// An iteration over the values that a queue has.
#[derive(Debug, PartialEq, Eq)]
pub struct TryDrain {
    started: (),
}

impl TryDrain {
    /// Start reading.
    pub fn new() -> (r: Self) {
        TryDrain { started: () }
    }

    /// The next value, if there is one.
    pub fn next<T, W>(&mut self, queue: &mut mpsc::Queue<T, W>) -> (r: Option<T>)
        requires
            old(queue).wf(),
            old(queue)@.items.len() > 0 ==> mpsc::front(old(queue)@) is Some,
        ensures
            final(queue).wf(),
            r == mpsc::front(old(queue)@),
            final(queue)@ == mpsc::after_pop(old(queue)@),
    {
        match queue.pop() {
            Ok(result) => result,
            Err(_) => None,
        }
    }
}

} // verus!
