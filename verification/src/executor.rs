//! What runs in the background.
//!
//! Running tasks, and the threads that run them, is up to the caller. What is
//! decided on the way is here: which threads there are, when one is replaced, who
//! creates the instance that everybody uses, and when a thread sleeps.

use vstd::prelude::*;

use crate::option_lock::{
    readers_of, step, LockOp, LockState, OptionGuard, OptionLock, OptionRead, ReadError,
};
use crate::park::{after_start, after_wake, Inner, ParkState, ParkView};
use crate::pool::error::{no_default_executor, ConfigError};

verus! {

broadcast use OptionLock::lemma_holding;

/// How many threads the instance has that everybody uses.
pub const GLOBAL_THREADS: usize = 5;

/// The threads of an executor.
pub ghost struct WorkersView {
    /// How many threads run.
    pub active: usize,
    /// Whether a thread that panics is replaced.
    pub running: bool,
}

/// An executor with a number of threads.
#[derive(Debug)]
pub struct BoundedExecutor {
    active: usize,
    running: bool,
}

impl View for BoundedExecutor {
    type V = WorkersView;

    closed spec fn view(&self) -> WorkersView {
        WorkersView { active: self.active, running: self.running }
    }
}

impl BoundedExecutor {
    /// Create an executor. Returns, too, how many threads to start.
    pub fn new(threads: usize) -> (r: (Self, usize))
        requires
            threads != 0,
        ensures
            r.0@ == (WorkersView { active: 0, running: false }),
            r.1 == threads,
    {
        (BoundedExecutor { active: 0, running: false }, threads)
    }

    /// Look for the instance that everybody uses.
    pub fn global(lock: &mut OptionLock<Self>) -> (r: Instance<Self>)
        requires
            readers_of(old(lock)@) < usize::MAX,
        ensures
            match old(lock)@ {
                LockState::Empty => r is Create && r->Create_0@ is None && final(lock)@
                    is ExclusiveLock,
                LockState::ExclusiveLock => r is Wait && final(lock)@ == old(lock)@,
                _ => r is Ready && final(lock)@ == step(old(lock)@, LockOp::Read),
            },
    {
        find_instance(lock)
    }

    /// Note that a thread has started.
    pub fn started(&mut self)
        ensures
            final(self)@ == (WorkersView {
                active: if old(self)@.active == usize::MAX {
                    0
                } else {
                    (old(self)@.active + 1) as usize
                },
                ..old(self)@
            }),
    {
        self.active = self.active.wrapping_add(1);
    }

    /// Note that a thread has ended. Returns whether to start another.
    pub fn ended(&mut self, panicking: bool) -> (r: bool)
        ensures
            r == (panicking && old(self)@.running),
            final(self)@ == (WorkersView {
                active: if old(self)@.active == 0 {
                    usize::MAX
                } else {
                    (old(self)@.active - 1) as usize
                },
                ..old(self)@
            }),
    {
        self.active = self.active.wrapping_sub(1);
        panicking && self.running
    }

    /// Shut down, when `count` more handles remain. Returns how many threads to
    /// notify.
    pub fn drop_handle(&mut self, count: usize) -> (r: Option<usize>)
        requires
            count == 0 ==> old(self)@.active < usize::MAX,
        ensures
            r == (if count == 0 {
                Some((old(self)@.active + 1) as usize)
            } else {
                None
            }),
            final(self)@ == (if count == 0 {
                WorkersView { running: false, ..old(self)@ }
            } else {
                old(self)@
            }),
    {
        if count == 0 {
            self.running = false;
            Some(self.active + 1)
        } else {
            None
        }
    }
}

/// Where the instance is that everybody uses.
pub enum Instance<X> {
    /// It is there.
    Ready(OptionRead),
    /// It is there, and nobody else uses it for now.
    Held(OptionGuard<X>),
    /// It has to be created.
    Create(OptionGuard<X>),
    /// Somebody creates it: let others run, and look again.
    Wait,
}

/// Look for the instance that everybody uses.
pub fn find_instance<X>(lock: &mut OptionLock<X>) -> (r: Instance<X>)
    requires
        readers_of(old(lock)@) < usize::MAX,
    ensures
        match old(lock)@ {
            LockState::Empty => r is Create && r->Create_0@ is None && final(lock)@
                is ExclusiveLock,
            LockState::ExclusiveLock => r is Wait && final(lock)@ == old(lock)@,
            _ => r is Ready && final(lock)@ == step(old(lock)@, LockOp::Read),
        },
{
    match lock.try_read() {
        Ok(read) => Instance::Ready(read),
        Err(ReadError::Empty) => match lock.try_lock() {
            Ok(guard) => Instance::Create(guard),
            Err(_) => Instance::Wait,
        },
        Err(ReadError::Locked) => Instance::Wait,
    }
}

/// Look for the instance that everybody uses, and keep others from it.
pub fn hold_instance<X>(lock: &mut OptionLock<X>) -> (r: Instance<X>)
    ensures
        final(lock)@ == step(old(lock)@, LockOp::Lock),
        match old(lock)@ {
            LockState::Empty => r is Create && r->Create_0@ is None,
            LockState::Available(inst) => r is Held && r->Held_0@ == Some(inst),
            _ => r is Wait,
        },
{
    match lock.try_lock() {
        Ok(guard) => if guard.is_some() {
            Instance::Held(guard)
        } else {
            Instance::Create(guard)
        },
        Err(_) => Instance::Wait,
    }
}

/// Provide the instance that everybody uses.
pub fn install<X>(lock: &mut OptionLock<X>, guard: OptionGuard<X>, inst: X)
    requires
        old(lock)@ is ExclusiveLock,
    ensures
        final(lock)@ == LockState::Available(inst),
{
    let mut held: OptionGuard<X> = guard;
    let _ = held.replace(inst);
    lock.unlock(held);
}

/// What a thread does that found no task.
#[derive(Clone, Copy, Debug, PartialEq, Eq, Structural)]
pub enum Ticker {
    /// Look for tasks.
    Tick,
    /// Park until notified, and look for tasks.
    Park,
    /// Stop.
    Stop,
}

/// The threads of an executor that are notified of tasks.
#[verifier::ext_equal]
pub ghost struct TickersView<H> {
    /// Whether the threads go on when they find no task.
    pub running: bool,
    /// Where each thread is.
    pub tickers: Seq<ParkView<H>>,
}

/// The threads after the executor was given up, each of them notified.
pub open spec fn after_stop<H>(s: TickersView<H>) -> TickersView<H> {
    TickersView {
        running: false,
        tickers: Seq::new(s.tickers.len(), |i: int| after_wake(s.tickers[i])),
    }
}

/// The threads that are to be unparked when all of them are notified.
pub open spec fn unparked<H>(s: TickersView<H>) -> Seq<Option<H>> {
    Seq::new(
        s.tickers.len(),
        |i: int|
            if s.tickers[i].state is Wake {
                s.tickers[i].thread
            } else {
                None
            },
    )
}

/// An executor whose threads are notified of tasks.
pub struct MultitaskExecutor<H> {
    running: bool,
    tickers: Vec<Inner<H>>,
}

impl<H> View for MultitaskExecutor<H> {
    type V = TickersView<H>;

    closed spec fn view(&self) -> TickersView<H> {
        TickersView {
            running: self.running,
            tickers: Seq::new(self.tickers@.len(), |i: int| self.tickers@[i]@),
        }
    }
}

impl<H> MultitaskExecutor<H> {
    /// Create an executor with a number of threads, each of which is to be started.
    pub fn new(threads: usize) -> (r: Self)
        requires
            threads != 0,
        ensures
            r@ == (TickersView::<H> {
                running: true,
                tickers: Seq::new(
                    threads as nat,
                    |i: int| ParkView { state: ParkState::Busy, thread: None },
                ),
            }),
    {
        let mut tickers: Vec<Inner<H>> = Vec::new();
        let mut i: usize = 0;
        while i < threads
            invariant
                i <= threads,
                tickers@.len() == i,
                forall|j: int|
                    0 <= j < i ==> (#[trigger] tickers@[j])@ == (ParkView::<H> {
                        state: ParkState::Busy,
                        thread: None,
                    }),
            decreases threads - i,
        {
            tickers.push(Inner::new());
            i = i + 1;
        }
        MultitaskExecutor { running: true, tickers }
    }

    /// Look for the instance that everybody uses.
    pub fn global(lock: &mut OptionLock<Self>) -> (r: Instance<Self>)
        requires
            readers_of(old(lock)@) < usize::MAX,
        ensures
            match old(lock)@ {
                LockState::Empty => r is Create && r->Create_0@ is None && final(lock)@
                    is ExclusiveLock,
                LockState::ExclusiveLock => r is Wait && final(lock)@ == old(lock)@,
                _ => r is Ready && final(lock)@ == step(old(lock)@, LockOp::Read),
            },
    {
        find_instance(lock)
    }

    /// Announce that a thread found no task and is going to wait.
    pub fn prepare_wait(&mut self, number: usize, thread: H)
        requires
            number < old(self)@.tickers.len(),
        ensures
            final(self)@ == (TickersView {
                tickers: old(self)@.tickers.update(
                    number as int,
                    ParkView { state: ParkState::Idle, thread: Some(thread) },
                ),
                ..old(self)@
            }),
    {
        self.tickers[number].prepare_wait(thread);
        assert(self@.tickers =~= old(self)@.tickers.update(
            number as int,
            ParkView { state: ParkState::Idle, thread: Some(thread) },
        ));
    }

    /// Decide what a thread does that announced a wait.
    pub fn rest(&mut self, number: usize) -> (r: Ticker)
        requires
            number < old(self)@.tickers.len(),
        ensures
            r == (if !old(self)@.running {
                Ticker::Stop
            } else if old(self)@.tickers[number as int].state is Idle {
                Ticker::Park
            } else {
                Ticker::Tick
            }),
            final(self)@ == (if old(self)@.running {
                TickersView {
                    tickers: old(self)@.tickers.update(
                        number as int,
                        after_start(old(self)@.tickers[number as int]),
                    ),
                    ..old(self)@
                }
            } else {
                old(self)@
            }),
    {
        if !self.running {
            return Ticker::Stop;
        }
        let park: bool = self.tickers[number].start_wait();
        assert(self@.tickers =~= old(self)@.tickers.update(
            number as int,
            after_start(old(self)@.tickers[number as int]),
        ));
        if park {
            Ticker::Park
        } else {
            Ticker::Tick
        }
    }

    /// Notify a thread of a task. Returns the thread if it is to be unparked.
    pub fn wake(&mut self, number: usize) -> (r: Option<H>)
        requires
            number < old(self)@.tickers.len(),
        ensures
            r == unparked(old(self)@)[number as int],
            final(self)@ == (TickersView {
                tickers: old(self)@.tickers.update(
                    number as int,
                    after_wake(old(self)@.tickers[number as int]),
                ),
                ..old(self)@
            }),
    {
        let thread: Option<H> = self.tickers[number].wake();
        assert(self@.tickers =~= old(self)@.tickers.update(
            number as int,
            after_wake(old(self)@.tickers[number as int]),
        ));
        thread
    }

    /// Give up a handle, when `count` more remain. When none does, all threads are
    /// notified, and are to be waited for. Returns, of each of them, the thread if it
    /// is to be unparked.
    pub fn drop_handle(&mut self, count: usize) -> (r: Vec<Option<H>>)
        ensures
            if count == 0 {
                &&& r@ == unparked(old(self)@)
                &&& final(self)@ == after_stop(old(self)@)
            } else {
                &&& r@ == Seq::<Option<H>>::empty()
                &&& final(self)@ == old(self)@
            },
    {
        let mut threads: Vec<Option<H>> = Vec::new();
        if count > 0 {
            return threads;
        }
        self.running = false;
        let ghost before = old(self)@;
        let len: usize = self.tickers.len();
        let mut i: usize = 0;
        while i < len
            invariant
                before == old(self)@,
                i <= len,
                len == before.tickers.len(),
                !self@.running,
                self@.tickers.len() == len,
                threads@.len() == i,
                forall|j: int| 0 <= j < i ==> #[trigger] threads@[j] == unparked(before)[j],
                forall|j: int|
                    0 <= j < i ==> #[trigger] self@.tickers[j] == after_wake(before.tickers[j]),
                forall|j: int|
                    i <= j < len ==> #[trigger] self@.tickers[j] == before.tickers[j],
            decreases len - i,
        {
            let thread: Option<H> = self.wake(i);
            threads.push(thread);
            i = i + 1;
        }
        assert(self@.tickers =~= after_stop(before).tickers);
        assert(threads@ =~= unparked(before));
        threads
    }
}

/// The executor to use, unless there is none.
pub fn default_executor<X>(provided: Option<X>) -> (r: Result<X, ConfigError>)
    ensures
        match provided {
            Some(exec) => r is Ok && r->Ok_0 == exec,
            None => r is Err && r->Err_0.0@ == "No default executor is provided"@,
        },
{
    match provided {
        Some(exec) => Ok(exec),
        None => Err(no_default_executor()),
    }
}

/// There is one instance: whoever is told to create it keeps others from creating
/// another, and once it is provided, all find it.
pub proof fn law_one_instance<X>(s: LockState<X>, inst: X)
    requires
        s is Empty,
    ensures
        step(s, LockOp::Lock) is ExclusiveLock,
        forall|op: LockOp<X>|
            !(op is Unlock) && !(op is Downgrade) ==> #[trigger] step(
                step(s, LockOp::Lock),
                op,
            ) is ExclusiveLock,
        ({
            let provided = step(step(s, LockOp::Lock), LockOp::Unlock(Some(inst)));
            step(provided, LockOp::Read) == LockState::ReadLock(inst, 1)
        }),
{
}

/// When the executor is given up, every thread that sleeps is unparked, and none
/// goes to sleep again.
pub proof fn law_no_thread_sleeps_on<H>(s: TickersView<H>, i: int)
    requires
        0 <= i < s.tickers.len(),
        s.tickers[i].state is Wake ==> s.tickers[i].thread is Some,
    ensures
        s.tickers[i].state is Wake ==> unparked(s)[i] == s.tickers[i].thread,
        !(s.tickers[i].state is Wake) ==> unparked(s)[i] is None,
        unparked(s).len() == s.tickers.len(),
        after_stop(s).tickers.len() == s.tickers.len(),
        after_stop(s).tickers[i].state is Busy,
        !after_stop(s).running,
{
}

/// A thread that was notified after it announced its wait looks for tasks again.
pub proof fn law_notified_thread_ticks<H>(s: ParkView<H>)
    requires
        s.state is Idle,
    ensures
        !(after_wake(s).state is Idle),
        after_start(after_wake(s)) == after_wake(s),
{
}

} // verus!
