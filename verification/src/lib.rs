//! Locks, channels and resource pools whose behaviour is stated in contracts.
//!
//! What threads and tasks share is one value here, such as a lock, a channel or a
//! pool, and every step that one of them takes is a method on it. A step never
//! blocks: it says what its caller has to do next, be it to wait, to wake somebody,
//! or to create a resource. Times are in nanoseconds and are told by the caller.
//!
//! - [`option_lock`], [`once`], [`try_mutex`] and [`resource::lock`] are locks.
//! - [`dropshot`], [`channel`], [`wait`] and [`util::injector`] are channels.
//! - [`pool`], [`arp`] and [`lifecycle`] are resource pools. They differ in who says
//!   that a pool is busy, and in what is done by handlers.
//! - [`park`], [`notify`], [`timers`] and [`executor`] are about waiting in time.

pub mod arp;
pub mod channel;
pub mod dropshot;
pub mod exchange;
pub mod executor;
pub mod lifecycle;
pub mod notify;
pub mod once;
pub mod option_lock;
pub mod park;
pub mod poll;
pub mod pool;
pub mod queue;
pub mod resource;
pub mod shared;
pub mod timers;
pub mod try_mutex;
pub mod util;
pub mod wait;
