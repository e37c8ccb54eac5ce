//! Moving a value out of a place by putting another one in.

use vstd::prelude::*;

verus! {

/// Store `value` in `place` and hand back what was there.
pub fn exchange<T>(place: &mut T, value: T) -> (r: T)
    ensures
        r == *old(place),
        *final(place) == value,
{
    let mut other: T = value;
    core::mem::swap(place, &mut other);
    other
}

} // verus!
