//! Channels between threads and tasks.

pub mod block;
pub mod drain;
pub mod dropshot;
pub mod mpsc;
pub mod single;
pub mod thread_waker;
pub mod waker;
