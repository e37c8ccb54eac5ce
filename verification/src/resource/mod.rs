//! Resources and what is known about them.

pub mod info;
pub mod lock;
pub mod operation;
pub mod repo;
pub mod managed;
