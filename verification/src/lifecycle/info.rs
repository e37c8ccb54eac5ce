//! What is known about a resource. Times are in nanoseconds.

use vstd::prelude::*;

verus! {

/// The history of a resource.
#[derive(Clone, Copy, Debug, PartialEq, Eq, Structural)]
pub struct ResourceInfo {
    /// When its creation started.
    pub start: u128,
    /// When its creation was completed.
    pub created_at: Option<u128>,
    /// How often it was borrowed after it had been returned.
    pub borrow_count: usize,
    /// When it was last borrowed after it had been returned.
    pub last_borrow: Option<u128>,
    /// When it was last returned.
    pub last_idle: Option<u128>,
    /// When it is to be kept alive or disposed of if it is still unused.
    pub verify_at: Option<u128>,
}

/// The history of a resource that is about to be created.
pub open spec fn fresh_info(now: u128) -> ResourceInfo {
    ResourceInfo {
        start: now,
        created_at: None,
        borrow_count: 0,
        last_borrow: None,
        last_idle: None,
        verify_at: None,
    }
}

/// A history with one more borrowing.
pub open spec fn borrowed_info(info: ResourceInfo, now: u128) -> ResourceInfo {
    ResourceInfo {
        last_borrow: Some(now),
        borrow_count: info.borrow_count.wrapping_add(1),
        ..info
    }
}

impl ResourceInfo {
    /// The history of a resource that is about to be created.
    pub fn default(now: u128) -> (r: Self)
        ensures
            r == fresh_info(now),
    {
        ResourceInfo {
            start: now,
            created_at: None,
            borrow_count: 0,
            last_borrow: None,
            last_idle: None,
            verify_at: None,
        }
    }

    /// Record that the resource is borrowed.
    pub fn borrowed(&mut self, now: u128)
        ensures
            *final(self) == borrowed_info(*old(self), now),
    {
        self.last_borrow = Some(now);
        self.borrow_count = self.borrow_count.wrapping_add(1);
    }
}

} // verus!
