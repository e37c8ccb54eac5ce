//! Pools whose resources are created, kept alive and disposed of by handlers.

pub mod acquire;
pub mod closing;
pub mod config;
pub mod info;
pub mod inner;
pub mod keeping;
pub mod laws;
pub mod lifecycle;
pub mod model;
pub mod pool;
pub mod queue;
pub mod requests;
pub mod rounds;
pub mod waking;
