//! The outcome of asking for something that may not be there yet.

use vstd::prelude::*;

verus! {

/// The outcome of asking for something that may not be there yet.
#[derive(Clone, Copy, Debug, PartialEq, Eq)]
pub enum Poll<T> {
    /// Here it is.
    Ready(T),
    /// Not yet; whoever asked will be woken.
    Pending,
}

} // verus!
