//! What can go wrong.

use vstd::prelude::*;
use vstd::string::StringExecFns;

use crate::util::debug::{pretty_text, pretty_tuple, tuple, tuple_text};

verus! {

/// An error during resource handle acquisition.
#[derive(Clone, Copy, Debug, PartialEq, Eq)]
pub enum AcquireError<E> {
    /// There are too many waiters
    PoolBusy,
    /// The resource pool is closed
    PoolClosed,
    /// Wraps an error result from a pool's `create` or `verify` callback
    ResourceError(E),
    /// The acquire timed out
    Timeout,
}

impl<E> AcquireError<E> {
    /// A description, given that of the error that is wrapped, if one is.
    pub fn message(&self, inner: &str) -> (r: String)
        ensures
            r@ == (match *self {
                AcquireError::PoolBusy => "The resource pool is occupied"@,
                AcquireError::PoolClosed => "The resource pool is closed"@,
                AcquireError::ResourceError(_) => "Resource error: "@ + inner@,
                AcquireError::Timeout => "The request timed out"@,
            }),
    {
        match self {
            AcquireError::PoolBusy => "The resource pool is occupied".to_owned(),
            AcquireError::PoolClosed => "The resource pool is closed".to_owned(),
            AcquireError::ResourceError(_) => {
                let mut text: String = "Resource error: ".to_owned();
                text.append(inner);
                text
            },
            AcquireError::Timeout => "The request timed out".to_owned(),
        }
    }

    /// The name of the error, given how the error that is wrapped is shown, if one
    /// is.
    pub fn debug(&self, alternate: bool, inner: &str) -> (r: String)
        ensures
            r@ == (match *self {
                AcquireError::PoolBusy => "AcquireError::PoolBusy"@,
                AcquireError::PoolClosed => "AcquireError::PoolClosed"@,
                AcquireError::ResourceError(_) => if alternate {
                    pretty_text("AcquireError::ResourceError"@, inner@)
                } else {
                    tuple_text("AcquireError::ResourceError"@, inner@)
                },
                AcquireError::Timeout => "AcquireError::Timeout"@,
            }),
    {
        match self {
            AcquireError::PoolBusy => "AcquireError::PoolBusy".to_owned(),
            AcquireError::PoolClosed => "AcquireError::PoolClosed".to_owned(),
            AcquireError::ResourceError(_) => if alternate {
                pretty_tuple("AcquireError::ResourceError", inner)
            } else {
                tuple("AcquireError::ResourceError", inner)
            },
            AcquireError::Timeout => "AcquireError::Timeout".to_owned(),
        }
    }
}

/// A configuration error.
#[derive(Debug)]
pub struct ConfigError(pub String);

impl ConfigError {
    /// A description.
    pub fn message(&self) -> (r: String)
        ensures
            r@ == "Config error: "@ + self.0@,
    {
        let mut text: String = "Config error: ".to_owned();
        text.append(self.0.as_str());
        text
    }
}

/// There is nothing that does work in the background unless it is provided.
pub fn no_default_executor() -> (r: ConfigError)
    ensures
        r.0@ == "No default executor is provided"@,
{
    ConfigError("No default executor is provided".to_owned())
}

} // verus!
