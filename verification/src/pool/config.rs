//! How to set up a pool.

use vstd::prelude::*;

use crate::pool::error::ConfigError;
use crate::pool::internal::PoolInternal;
use crate::pool::model::fresh_pool;
use crate::resource::info::ResourceInfo;
use crate::shared::{callable, fresh_shared};

verus! {

/// The shortest time that counts, in nanoseconds.
pub const MICROSECOND: u128 = 1000;

/// A pool configuration instance, used to build a new instance of a resource
/// pool. Times are in nanoseconds.
pub struct PoolConfig<R> {
    acquire_timeout: Option<u128>,
    handle_error: bool,
    idle_timeout: Option<u128>,
    min_count: usize,
    max_count: usize,
    max_waiters: Option<usize>,
    on_dispose: bool,
    on_release: Option<R>,
    on_verify: bool,
}

/// A configuration.
pub ghost struct ConfigView<R> {
    /// How long somebody may wait for a resource.
    pub acquire_timeout: Option<u128>,
    /// Whether somebody wants to see errors.
    pub handle_error: bool,
    /// How long a resource may be unused.
    pub idle_timeout: Option<u128>,
    /// The number of resources that is kept.
    pub min_count: usize,
    /// The highest number of resources, or zero for no limit.
    pub max_count: usize,
    /// The highest number of waiters, if there is a limit.
    pub max_waiters: Option<usize>,
    /// Whether somebody wants to see what was disposed of.
    pub on_dispose: bool,
    /// What is asked before a resource is kept.
    pub on_release: Option<R>,
    /// Whether resources are verified.
    pub on_verify: bool,
}

/// A time, unless it is too short to count.
pub open spec fn noticeable(val: u128) -> Option<u128> {
    if val >= MICROSECOND {
        Some(val)
    } else {
        None
    }
}

impl<R> View for PoolConfig<R> {
    type V = ConfigView<R>;

    closed spec fn view(&self) -> ConfigView<R> {
        ConfigView {
            acquire_timeout: self.acquire_timeout,
            handle_error: self.handle_error,
            idle_timeout: self.idle_timeout,
            min_count: self.min_count,
            max_count: self.max_count,
            max_waiters: self.max_waiters,
            on_dispose: self.on_dispose,
            on_release: self.on_release,
            on_verify: self.on_verify,
        }
    }
}

impl<R> PoolConfig<R> {
    /// Create a new pool configuration.
    pub fn new() -> (r: Self)
        ensures
            r@ == (ConfigView::<R> {
                acquire_timeout: None,
                handle_error: false,
                idle_timeout: None,
                min_count: 0,
                max_count: 0,
                max_waiters: None,
                on_dispose: false,
                on_release: None,
                on_verify: false,
            }),
    {
        PoolConfig {
            acquire_timeout: None,
            handle_error: false,
            idle_timeout: None,
            min_count: 0,
            max_count: 0,
            max_waiters: None,
            on_dispose: false,
            on_release: None,
            on_verify: false,
        }
    }

    /// Set the pool default timeout for resource acquisition. A timeout of less
    /// than a microsecond indicates no default timeout.
    pub fn acquire_timeout(self, val: u128) -> (r: Self)
        ensures
            r@ == (ConfigView::<R> { acquire_timeout: noticeable(val), ..self@ }),
    {
        let mut config: Self = self;
        config.acquire_timeout = if val >= MICROSECOND {
            Some(val)
        } else {
            None
        };
        config
    }

    /// Ask for the resources that are disposed of because they are no longer
    /// needed or have failed validation.
    pub fn dispose(self) -> (r: Self)
        ensures
            r@ == (ConfigView::<R> { on_dispose: true, ..self@ }),
    {
        let mut config: Self = self;
        config.on_dispose = true;
        config
    }

    /// Ask for the errors that are raised during resource creation or validation.
    pub fn handle_error(self) -> (r: Self)
        ensures
            r@ == (ConfigView::<R> { handle_error: true, ..self@ }),
    {
        let mut config: Self = self;
        config.handle_error = true;
        config
    }

    /// Set the idle timeout for resources. A timeout of less than a microsecond
    /// implies that resources will be disposed immediately when they are released,
    /// unless there are active pending acquisition requests.
    pub fn idle_timeout(self, val: u128) -> (r: Self)
        ensures
            r@ == (ConfigView::<R> { idle_timeout: noticeable(val), ..self@ }),
    {
        let mut config: Self = self;
        config.idle_timeout = if val >= MICROSECOND {
            Some(val)
        } else {
            None
        };
        config
    }

    /// Have resources verified once their idle timeout has expired.
    pub fn verify(self) -> (r: Self)
        ensures
            r@ == (ConfigView::<R> { on_verify: true, ..self@ }),
    {
        let mut config: Self = self;
        config.on_verify = true;
        config
    }

    /// Set the maximum number of resource instances to create within the pool.
    /// Set to zero in order to enforce no maximum count.
    pub fn max_count(self, val: usize) -> (r: Self)
        ensures
            r@ == (ConfigView::<R> { max_count: val, ..self@ }),
    {
        let mut config: Self = self;
        config.max_count = val;
        config
    }

    /// Set the maximum number of waiters allowed by the pool when no idle
    /// resources are available and the maximum number of resources have been
    /// created.
    pub fn max_waiters(self, val: usize) -> (r: Self)
        ensures
            r@ == (ConfigView::<R> { max_waiters: Some(val), ..self@ }),
    {
        let mut config: Self = self;
        config.max_waiters = Some(val);
        config
    }

    /// Set the minimum number of resources to keep instantiated.
    pub fn min_count(self, val: usize) -> (r: Self)
        ensures
            r@ == (ConfigView::<R> { min_count: val, ..self@ }),
    {
        let mut config: Self = self;
        config.min_count = val;
        config
    }

    /// Set a callback to be executed when a resource instance is released back to
    /// the pool after being acquired. It returns the instance and whether it is
    /// capable of being reused.
    pub fn release(self, release: R) -> (r: Self)
        ensures
            r@ == (ConfigView::<R> { on_release: Some(release), ..self@ }),
    {
        let mut config: Self = self;
        config.on_release = Some(release);
        config
    }

    /// Check whether somebody wants to see what is disposed of.
    pub fn disposes(&self) -> (r: bool)
        ensures
            r == self@.on_dispose,
    {
        self.on_dispose
    }

    /// Convert the pool configuration into a new pool, given what does work in the
    /// background.
    pub fn build<T, W, X>(self, executor: Result<X, ConfigError>) -> (r: Result<
        (PoolInternal<T, W, R>, X),
        ConfigError,
    >) where R: Fn(T, ResourceInfo) -> (T, bool)
        requires
            callable::<T, R>(self@.on_release),
        ensures
            match executor {
                Err(err) => r is Err && r->Err_0 == err,
                Ok(executor) => {
                    &&& r is Ok
                    &&& r->Ok_0.1 == executor
                    &&& r->Ok_0.0.wf()
                    &&& r->Ok_0.0.hook() == self@.on_release
                    &&& r->Ok_0.0.handles_errors() == self@.handle_error
                    &&& r->Ok_0.0@ == fresh_pool::<T, W>(
                        fresh_shared(
                            self@.min_count,
                            self@.max_count,
                            self@.max_waiters,
                            self@.idle_timeout,
                        ),
                        self@.acquire_timeout,
                        self@.on_verify,
                    )
                },
            },
    {
        match executor {
            Err(err) => Err(err),
            Ok(executor) => {
                let inner: PoolInternal<T, W, R> = PoolInternal::new(
                    self.acquire_timeout,
                    self.handle_error,
                    self.idle_timeout,
                    self.min_count,
                    self.max_count,
                    self.max_waiters,
                    self.on_release,
                    self.on_verify,
                );
                Ok((inner, executor))
            },
        }
    }
}

/// A time counts from one microsecond on.
pub proof fn law_short_times_do_not_count(val: u128)
    ensures
        val < 1_000 ==> noticeable(val) is None,
        val >= 1_000 ==> noticeable(val) == Some(val),
{
}

/// A new pool is in use, has no resource and nobody who waits, one handle, and the
/// settings that it was made with.
pub proof fn law_new_pool_is_as_configured<T, W>(
    min_count: usize,
    max_count: usize,
    max_waiters: Option<usize>,
    idle_timeout: Option<u128>,
    acquire_timeout: Option<u128>,
    verify: bool,
)
    ensures
        ({
            let p = fresh_pool::<T, W>(
                fresh_shared(min_count, max_count, max_waiters, idle_timeout),
                acquire_timeout,
                verify,
            );
            &&& p.shared.min_count == min_count
            &&& p.shared.max_count == max_count
            &&& p.shared.max_waiters == max_waiters
            &&& p.shared.idle_timeout == idle_timeout
            &&& p.acquire_timeout == acquire_timeout
            &&& p.verify == verify
            &&& p.state is Active
            &&& p.handles == 1
            &&& p.shared.count == 0
            &&& p.shared.waiter_count == 0
            &&& p.shared.cells.len() == 0
            &&& p.shared.idle.len() == 0
            &&& p.mgr.waiters.len() == 0
            &&& p.mgr.timers.len() == 0
        }),
{
}

} // verus!
