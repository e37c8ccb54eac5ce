//! Resources in use.

use vstd::prelude::*;

use crate::resource::info::ResourceInfo;
use crate::resource::lock::{GuardView, ResourceGuard};
use crate::util::debug::{struct_text, structure};

verus! {

/// A resource that a user has for as long as needed.
#[derive(Debug)]
pub struct Managed<I, T> {
    value: ResourceGuard<I, T>,
}

impl<I, T> View for Managed<I, T> {
    type V = GuardView<I, T>;

    closed spec fn view(&self) -> GuardView<I, T> {
        self.value@
    }
}

impl<I, T> Managed<I, T> {
    /// Hand a resource to a user.
    pub fn new(value: ResourceGuard<I, T>) -> (r: Self)
        ensures
            r@ == value@,
    {
        Managed { value }
    }

    /// The resource in writing, given how it is written.
    pub fn debug(&self, alternate: bool, inner: &str) -> (r: String)
        ensures
            r@ == (if alternate {
                struct_text("ManagedResource"@, "value"@, true, inner@)
            } else {
                inner@
            }),
    {
        if alternate {
            structure("ManagedResource", "value", true, inner)
        } else {
            inner.to_owned()
        }
    }

    /// What is known about the resource.
    pub fn info(mng_self: &Self) -> (r: &I)
        ensures
            *r == mng_self@.info,
    {
        mng_self.value.info()
    }

    /// The resource.
    pub fn deref(&self) -> (r: &T)
        requires
            self@.value is Some,
        ensures
            *r == self@.value->0,
    {
        match self.value.as_ref() {
            Some(value) => value,
            None => vstd::pervasive::unreached(),
        }
    }

    /// The resource.
    pub fn deref_mut(&mut self) -> (r: &mut T)
        requires
            old(self)@.value is Some,
        ensures
            *r == old(self)@.value->0,
            final(self)@ == (GuardView::<I, T> { value: Some(*final(r)), ..old(self)@ }),
    {
        match self.value.value_mut() {
            Some(value) => value,
            None => vstd::pervasive::unreached(),
        }
    }

    /// Stop using the resource. The guard is to be returned.
    pub fn into_guard(self) -> (r: ResourceGuard<I, T>)
        ensures
            r@ == self@,
    {
        self.value
    }
}

impl<T> Managed<ResourceInfo, T> {
    /// Have the resource disposed of when it is returned.
    pub fn discard(mng_self: &mut Self)
        ensures
            final(mng_self)@ == (GuardView {
                info: ResourceInfo { expired: true, ..old(mng_self)@.info },
                ..old(mng_self)@
            }),
    {
        mng_self.value.info_mut().expired = true;
    }
}

} // verus!
