//! What is known about a resource. Times are in nanoseconds.

use vstd::prelude::*;

verus! {

/// The history of a resource.
#[derive(Clone, Copy, Debug, PartialEq, Eq, Structural)]
pub struct ResourceInfo {
    /// When its creation started.
    pub start: u128,
    /// When its creation was completed.
    pub created_at: Option<u128>,
    /// How often it was handed out.
    pub acquire_count: usize,
    /// When it was last handed out.
    pub last_acquire: Option<u128>,
    /// When it was last returned.
    pub last_idle: Option<u128>,
    /// Whether it must not be handed out any more.
    pub expired: bool,
    /// Whether it may be kept for the next user.
    pub reusable: bool,
    /// When it is to be verified if it is still unused.
    pub verify_at: Option<u128>,
}

/// The history of a resource that is about to be created.
pub open spec fn fresh_info(now: u128) -> ResourceInfo {
    ResourceInfo {
        start: now,
        created_at: None,
        acquire_count: 0,
        last_acquire: None,
        last_idle: None,
        expired: false,
        reusable: true,
        verify_at: None,
    }
}

/// A history with one more handing out.
pub open spec fn acquired_info(info: ResourceInfo, now: u128) -> ResourceInfo {
    ResourceInfo {
        last_acquire: Some(now),
        acquire_count: info.acquire_count.wrapping_add(1),
        ..info
    }
}

impl ResourceInfo {
    /// The history of a resource that is about to be created.
    pub fn default(now: u128) -> (r: Self)
        ensures
            r == fresh_info(now),
    {
        ResourceInfo {
            start: now,
            created_at: None,
            acquire_count: 0,
            last_acquire: None,
            last_idle: None,
            expired: false,
            reusable: true,
            verify_at: None,
        }
    }

    /// Record that the resource is handed out.
    pub fn acquired(&mut self, now: u128)
        ensures
            *final(self) == acquired_info(*old(self), now),
    {
        self.last_acquire = Some(now);
        self.acquire_count = self.acquire_count.wrapping_add(1);
    }
}

} // verus!
