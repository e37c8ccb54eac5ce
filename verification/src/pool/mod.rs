//! Pools of resources.

pub mod acquire;
pub mod config;
pub mod counts;
pub mod draining;
pub mod error;
pub mod internal;
pub mod keeping;
pub mod laws;
pub mod model;
pub mod pool;
pub mod requests;
pub mod rounds;
pub mod steps;
pub mod turns;
pub mod waking;
