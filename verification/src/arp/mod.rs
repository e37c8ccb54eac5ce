//! Pools whose manager says when they are busy.

pub mod acquire;
pub mod closing;
pub mod config;
pub mod error;
pub mod internal;
pub mod keeping;
pub mod laws;
pub mod model;
pub mod pool;
pub mod requests;
pub mod rounds;
pub mod shared;
pub mod waking;
