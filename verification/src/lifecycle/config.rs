//! How to set up such a pool.

use vstd::prelude::*;

use crate::lifecycle::inner::PoolInner;
use crate::lifecycle::lifecycle::Lifecycle;
use crate::lifecycle::model::{fresh_pool, Handlers};
use crate::lifecycle::queue::fresh_queue;
use crate::pool::config::{noticeable, MICROSECOND};

verus! {

/// How to set up a pool. Times are in nanoseconds.
pub struct PoolConfig {
    acquire_timeout: Option<u128>,
    idle_timeout: Option<u128>,
    min_count: usize,
    max_count: Option<usize>,
    max_waiters: Option<usize>,
    thread_count: Option<usize>,
    lifecycle: Lifecycle,
}

/// A configuration.
pub ghost struct ConfigView {
    /// How long somebody may wait for a resource.
    pub acquire_timeout: Option<u128>,
    /// How long a resource may be unused.
    pub idle_timeout: Option<u128>,
    /// The number of resources that is kept.
    pub min_count: usize,
    /// The highest number of resources, if there is a limit.
    pub max_count: Option<usize>,
    /// The highest number of waiters, if there is a limit.
    pub max_waiters: Option<usize>,
    /// How many threads do work in the background, if it was said.
    pub thread_count: Option<usize>,
    /// Which handlers there are.
    pub handlers: Handlers,
}

/// A number, unless it is zero.
pub open spec fn positive(val: usize) -> Option<usize> {
    if val > 0 {
        Some(val)
    } else {
        None
    }
}

impl View for PoolConfig {
    type V = ConfigView;

    closed spec fn view(&self) -> ConfigView {
        ConfigView {
            acquire_timeout: self.acquire_timeout,
            idle_timeout: self.idle_timeout,
            min_count: self.min_count,
            max_count: self.max_count,
            max_waiters: self.max_waiters,
            thread_count: self.thread_count,
            handlers: self.lifecycle@,
        }
    }
}

impl PoolConfig {
    /// Start with a handler that creates resources.
    pub fn new() -> (r: Self)
        ensures
            r@ == (ConfigView {
                acquire_timeout: None,
                idle_timeout: None,
                min_count: 0,
                max_count: None,
                max_waiters: None,
                thread_count: None,
                handlers: Handlers { dispose: false, handle_error: false, keepalive: false },
            }),
    {
        PoolConfig {
            acquire_timeout: None,
            idle_timeout: None,
            min_count: 0,
            max_count: None,
            max_waiters: None,
            thread_count: None,
            lifecycle: Lifecycle::new(),
        }
    }

    /// Set how long somebody may wait for a resource. A time of less than a
    /// microsecond sets no limit.
    pub fn acquire_timeout(self, val: u128) -> (r: Self)
        ensures
            r@ == (ConfigView { acquire_timeout: noticeable(val), ..self@ }),
    {
        let mut config: Self = self;
        config.acquire_timeout = if val >= MICROSECOND {
            Some(val)
        } else {
            None
        };
        config
    }

    /// Have resources disposed of by a handler.
    pub fn dispose(self) -> (r: Self)
        ensures
            r@ == (ConfigView { handlers: Handlers { dispose: true, ..self@.handlers }, ..self@ }),
    {
        let mut config: Self = self;
        let handlers: Handlers = config.lifecycle.handlers();
        config.lifecycle.set(Handlers { dispose: true, ..handlers });
        config
    }

    /// Ask for the errors of handlers.
    pub fn handle_error(self) -> (r: Self)
        ensures
            r@ == (ConfigView {
                handlers: Handlers { handle_error: true, ..self@.handlers },
                ..self@
            }),
    {
        let mut config: Self = self;
        let handlers: Handlers = config.lifecycle.handlers();
        config.lifecycle.set(Handlers { handle_error: true, ..handlers });
        config
    }

    /// Set how long a resource may be unused. A time of less than a microsecond
    /// means that resources are not kept, unless somebody waits.
    pub fn idle_timeout(self, val: u128) -> (r: Self)
        ensures
            r@ == (ConfigView { idle_timeout: noticeable(val), ..self@ }),
    {
        let mut config: Self = self;
        config.idle_timeout = if val >= MICROSECOND {
            Some(val)
        } else {
            None
        };
        config
    }

    /// Have resources kept alive by a handler.
    pub fn keepalive(self) -> (r: Self)
        ensures
            r@ == (ConfigView {
                handlers: Handlers { keepalive: true, ..self@.handlers },
                ..self@
            }),
    {
        let mut config: Self = self;
        let handlers: Handlers = config.lifecycle.handlers();
        config.lifecycle.set(Handlers { keepalive: true, ..handlers });
        config
    }

    /// Set the highest number of resources. Zero sets no limit.
    pub fn max_count(self, val: usize) -> (r: Self)
        ensures
            r@ == (ConfigView { max_count: positive(val), ..self@ }),
    {
        let mut config: Self = self;
        config.max_count = if val > 0 {
            Some(val)
        } else {
            None
        };
        config
    }

    /// Set the highest number of waiters.
    pub fn max_waiters(self, val: usize) -> (r: Self)
        ensures
            r@ == (ConfigView { max_waiters: Some(val), ..self@ }),
    {
        let mut config: Self = self;
        config.max_waiters = Some(val);
        config
    }

    /// Set the number of resources that is kept.
    pub fn min_count(self, val: usize) -> (r: Self)
        ensures
            r@ == (ConfigView { min_count: val, ..self@ }),
    {
        let mut config: Self = self;
        config.min_count = val;
        config
    }

    /// Set the number of threads that do work in the background. Zero leaves it to
    /// the pool.
    pub fn thread_count(self, val: usize) -> (r: Self)
        ensures
            r@ == (ConfigView { thread_count: positive(val), ..self@ }),
    {
        let mut config: Self = self;
        config.thread_count = if val > 0 {
            Some(val)
        } else {
            None
        };
        config
    }

    /// The number of threads that do work in the background: one, unless it was
    /// said otherwise.
    pub fn threads(&self) -> (r: usize)
        ensures
            r == (match self@.thread_count {
                Some(count) => count,
                None => 1,
            }),
    {
        match self.thread_count {
            Some(count) => count,
            None => 1,
        }
    }

    /// Create the pool.
    pub fn build<T, W>(self) -> (r: PoolInner<T, W>)
        ensures
            r.wf(),
            r@ == fresh_pool::<T, W>(
                fresh_queue(self@.min_count, self@.max_count, self@.idle_timeout),
                self@.acquire_timeout,
                self@.handlers,
            ),
    {
        PoolInner::new(
            self.lifecycle,
            self.acquire_timeout,
            self.idle_timeout,
            self.min_count,
            self.max_count,
        )
    }
}

/// A number counts unless it is zero.
pub proof fn law_zero_is_no_number(val: usize)
    ensures
        val == 0 ==> positive(val) is None,
        val > 0 ==> positive(val) == Some(val),
{
}

/// A new pool is in use, has no resource and nobody who waits, one handle, and the
/// settings that it was made with.
pub proof fn law_new_pool_is_as_configured<T, W>(
    min_count: usize,
    max_count: Option<usize>,
    idle_timeout: Option<u128>,
    acquire_timeout: Option<u128>,
    handlers: Handlers,
)
    ensures
        ({
            let p = fresh_pool::<T, W>(
                fresh_queue(min_count, max_count, idle_timeout),
                acquire_timeout,
                handlers,
            );
            &&& p.queue.min_count == min_count
            &&& p.queue.max_count == max_count
            &&& p.queue.idle_timeout == idle_timeout
            &&& p.acquire_timeout == acquire_timeout
            &&& p.handlers == handlers
            &&& p.state is Active
            &&& p.handles == 1
            &&& p.queue.count == 0
            &&& !p.queue.busy
            &&& p.queue.cells.len() == 0
            &&& p.queue.idle.len() == 0
            &&& p.mgr.repo.len() == 0
            &&& p.mgr.waiters.len() == 0
            &&& p.mgr.timers.len() == 0
        }),
{
}

} // verus!
