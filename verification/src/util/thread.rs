//! A thread of its own for a resource.
//!
//! The handle leaves one command at a time for the thread, which runs the
//! commands. Running the thread, and waking it, is up to the caller.

use vstd::prelude::*;

use crate::option_lock::{lockable, step, LockOp, LockState, OptionGuard, OptionLock};

verus! {

broadcast use OptionLock::lemma_holding;

/// What the thread is told to do.
#[derive(Debug)]
pub enum Command<F, G> {
    /// Run something on the resource.
    Run(F),
    /// Run something that consumes the resource, and stop.
    Extract(G),
    /// Stop.
    Stop,
}

/// What the thread does next.
#[derive(Debug)]
pub enum Turn<F, G> {
    /// Run something on the resource, and look again.
    Run(F),
    /// Run something that consumes the resource, and stop.
    Extract(G),
    /// Stop.
    Stop,
    /// Wait to be woken, and look again.
    Wait,
}

/// What the handle and the thread share.
pub ghost struct StateView<F, G> {
    /// The next command.
    pub next: LockState<Command<F, G>>,
    /// Whether the thread is running.
    pub running: bool,
    /// Whether the thread is to be woken.
    pub notified: bool,
}

/// What the handle and the thread share.
pub struct State<F, G> {
    next: OptionLock<Command<F, G>>,
    running: bool,
    notified: bool,
}

impl<F, G> View for State<F, G> {
    type V = StateView<F, G>;

    closed spec fn view(&self) -> StateView<F, G> {
        StateView { next: self.next@, running: self.running, notified: self.notified }
    }
}

/// Check that the thread takes a command.
pub open spec fn takes<F, G>(s: StateView<F, G>) -> bool {
    s.running && s.next is Empty
}

/// What is there after a command was left for the thread.
pub open spec fn after_command<F, G>(s: StateView<F, G>, cmd: Command<F, G>) -> StateView<F, G> {
    StateView {
        next: if takes(s) {
            LockState::Available(cmd)
        } else {
            s.next
        },
        notified: true,
        ..s
    }
}

/// What the thread does next.
pub open spec fn turn_of<F, G>(s: StateView<F, G>) -> Turn<F, G> {
    match s.next {
        LockState::Available(Command::Run(f)) => Turn::Run(f),
        LockState::Available(Command::Extract(g)) => Turn::Extract(g),
        LockState::Available(Command::Stop) => Turn::Stop,
        _ => Turn::Wait,
    }
}

/// What is there after the thread looked for a command.
pub open spec fn after_turn<F, G>(s: StateView<F, G>) -> StateView<F, G> {
    StateView { next: step(s.next, LockOp::Take), ..s }
}

impl<F, G> State<F, G> {
    /// Start with a running thread and no command.
    pub fn new() -> (r: Self)
        ensures
            r@ == (StateView::<F, G> { next: LockState::Empty, running: true, notified: false }),
    {
        State { next: OptionLock::new(), running: true, notified: false }
    }

    /// Look for the next command.
    pub fn turn(&mut self) -> (r: Turn<F, G>)
        ensures
            r == turn_of(old(self)@),
            final(self)@ == after_turn(old(self)@),
    {
        match self.next.try_take() {
            Ok(Command::Run(f)) => Turn::Run(f),
            Ok(Command::Extract(g)) => Turn::Extract(g),
            Ok(Command::Stop) => Turn::Stop,
            Err(_) => Turn::Wait,
        }
    }

    /// Note that the thread has stopped.
    pub fn stopped(&mut self)
        ensures
            final(self)@ == (StateView::<F, G> { running: false, ..old(self)@ }),
    {
        self.running = false;
    }

    /// Check whether the thread is to be woken, which is then up to the caller.
    pub fn take_notified(&mut self) -> (r: bool)
        ensures
            r == old(self)@.notified,
            final(self)@ == (StateView::<F, G> { notified: false, ..old(self)@ }),
    {
        let notified: bool = self.notified;
        self.notified = false;
        notified
    }
}

/// What a thread reports of the construction of its resource: the resource, if it
/// goes on, and the news for whoever started it.
pub fn constructed<T, E>(ctor: Result<T, E>) -> (r: (Option<T>, Result<(), E>))
    ensures
        r == (match ctor {
            Ok(res) => (Some(res), Ok::<(), E>(())),
            Err(err) => (None::<T>, Err::<(), E>(err)),
        }),
{
    match ctor {
        Ok(res) => (Some(res), Ok(())),
        Err(err) => (None, Err(err)),
    }
}

/// A handle to a resource with a thread of its own.
#[derive(Debug, PartialEq, Eq)]
pub struct ThreadResource {
    handle: bool,
}

impl View for ThreadResource {
    type V = bool;

    /// Whether the thread is to be stopped when the handle is given up.
    closed spec fn view(&self) -> bool {
        self.handle
    }
}

impl ThreadResource {
    /// Create a handle to a thread that has its resource.
    pub fn create() -> (r: Self)
        ensures
            r@,
    {
        ThreadResource { handle: true }
    }

    /// Create a handle, given the news from the thread.
    pub fn try_create<E>(start: Result<(), E>) -> (r: Result<Self, E>)
        ensures
            match start {
                Ok(_) => r is Ok && r->Ok_0@,
                Err(err) => r is Err && r->Err_0 == err,
            },
    {
        match start {
            Ok(_) => Ok(Self::create()),
            Err(err) => Err(err),
        }
    }

    /// Have something run on the resource. Returns whether the thread takes the
    /// command.
    pub fn enter<F, G>(&mut self, state: &mut State<F, G>, f: F) -> (r: bool)
        requires
            lockable(old(state)@.next),
        ensures
            final(self)@ == old(self)@,
            r == takes(old(state)@),
            final(state)@ == after_command(old(state)@, Command::Run(f)),
    {
        self.run_command(state, Command::Run(f))
    }

    /// Have the resource consumed and the thread stopped. Returns whether the
    /// thread takes the command.
    pub fn extract<F, G>(self, state: &mut State<F, G>, f: G) -> (r: bool)
        requires
            lockable(old(state)@.next),
        ensures
            r == takes(old(state)@),
            final(state)@ == after_command(old(state)@, Command::Extract(f)),
    {
        let mut handle: Self = self;
        let taken: bool = handle.run_command(state, Command::Extract(f));
        handle.handle = false;
        // the thread stops by itself
        let _ = handle.drop(state);
        taken
    }

    fn run_command<F, G>(&mut self, state: &mut State<F, G>, cmd: Command<F, G>) -> (r: bool)
        requires
            lockable(old(state)@.next),
        ensures
            final(self)@ == old(self)@,
            r == takes(old(state)@),
            final(state)@ == after_command(old(state)@, cmd),
    {
        // only contention should be with the thread, which locks just long enough
        // to retrieve the value
        let mut guard: OptionGuard<Command<F, G>> = state.next.spin_lock();
        let taken: bool = if state.running && guard.is_none() {
            let _ = guard.replace(cmd);
            true
        } else {
            // if the thread stopped unexpectedly then the command is dropped.
            // if the previous command is not consumed then wake the thread in case
            // it failed to acquire the lock while it was held here.
            false
        };
        state.next.unlock(guard);
        state.notified = true;
        taken
    }

    /// Give the handle up. Returns whether the thread was told to stop, and is to
    /// be waited for.
    pub fn drop<F, G>(self, state: &mut State<F, G>) -> (r: bool)
        requires
            self@ ==> lockable(old(state)@.next),
        ensures
            r == self@,
            final(state)@ == (if self@ {
                after_command(old(state)@, Command::Stop)
            } else {
                old(state)@
            }),
    {
        let mut handle: Self = self;
        if handle.handle {
            let _ = handle.run_command(state, Command::Stop);
            true
        } else {
            false
        }
    }
}

/// A command that the thread takes is what it does next, once.
pub proof fn law_command_is_run<F, G>(s: StateView<F, G>, cmd: Command<F, G>)
    requires
        s.running,
        s.next is Empty,
    ensures
        takes(s),
        turn_of(after_command(s, cmd)) == (match cmd {
            Command::Run(f) => Turn::<F, G>::Run(f),
            Command::Extract(g) => Turn::<F, G>::Extract(g),
            Command::Stop => Turn::<F, G>::Stop,
        }),
        turn_of(after_turn(after_command(s, cmd))) is Wait,
        after_turn(after_command(s, cmd)).next is Empty,
        after_command(s, cmd).notified,
        after_command(s, cmd).running,
{
}

/// A command never takes the place of one that the thread has not seen.
pub proof fn law_command_waits_its_turn<F, G>(s: StateView<F, G>, cmd: Command<F, G>)
    requires
        s.next is Available,
    ensures
        !takes(s),
        after_command(s, cmd).next == s.next,
        after_command(s, cmd).notified,
        after_command(s, cmd).running == s.running,
{
}

/// A thread that has stopped takes no command, and nothing is left for it. A thread that
/// finds no command waits, and changes nothing.
pub proof fn law_stopped_thread_takes_nothing<F, G>(s: StateView<F, G>, cmd: Command<F, G>)
    ensures
        !s.running ==> !takes(s) && after_command(s, cmd).next == s.next
            && !after_command(s, cmd).running,
        !(s.next is Available) ==> turn_of(s) is Wait && after_turn(s) == s,
        after_turn(s).running == s.running,
        after_turn(s).notified == s.notified,
{
}

} // verus!
