//! Parts that pools are made of.

pub mod debug;
pub mod decimal;
pub mod injector;
pub mod option_lock;
pub mod thread;
