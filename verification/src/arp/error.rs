//! What can go wrong.

use vstd::prelude::*;
use vstd::string::StringExecFns;

verus! {

/// Why there is no resource.
#[derive(Clone, Copy, Debug, PartialEq, Eq)]
pub enum AcquireError<E> {
    /// Too many wait.
    Busy,
    /// The resource could not be created.
    ResourceError(E),
    /// The request was answered before.
    Stopped,
    /// No resource came in time.
    Timeout,
}

impl<E> AcquireError<E> {
    /// The name of the error, given how the error that is wrapped is shown, if one
    /// is.
    pub fn debug(&self, inner: &str) -> (r: String)
        ensures
            r@ == (match *self {
                AcquireError::Busy => "AcquireError::Busy"@,
                AcquireError::ResourceError(_) => "AcquireError::ResourceError("@ + inner@ + ")"@,
                AcquireError::Stopped => "AcquireError::Stopped"@,
                AcquireError::Timeout => "AcquireError::Timeout"@,
            }),
    {
        match self {
            AcquireError::Busy => "AcquireError::Busy".to_owned(),
            AcquireError::ResourceError(_) => {
                let mut text: String = "AcquireError::ResourceError(".to_owned();
                text.append(inner);
                text.append(")");
                text
            },
            AcquireError::Stopped => "AcquireError::Stopped".to_owned(),
            AcquireError::Timeout => "AcquireError::Timeout".to_owned(),
        }
    }
}

} // verus!
