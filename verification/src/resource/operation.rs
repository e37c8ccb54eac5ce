//! Work on resources that takes a while.
//!
//! While the work is going on, the guard of the resource stays with it. Doing
//! the work is up to the caller; the functions here say what becomes of the
//! resource when it is done.

use vstd::prelude::*;

use crate::resource::info::ResourceInfo;
use crate::resource::lock::{GuardView, ResourceGuard};

verus! {

/// What is done to a resource.
#[derive(Clone, Copy, Debug, PartialEq, Eq, Structural)]
pub enum Work {
    /// It is created.
    Create,
    /// It is checked whether it is still good.
    Verify,
    /// It is replaced by another.
    Keepalive,
    /// It is disposed of.
    Dispose,
}

/// Work that is going on.
#[derive(Debug)]
pub struct Operation<I, T> {
    /// What is done.
    pub work: Work,
    /// The guard of the resource.
    pub guard: ResourceGuard<I, T>,
}

/// A resource, or the prospect of one.
#[derive(Debug)]
pub enum ResourceResolve<I, T> {
    /// The resource, if there is one.
    Resource(Option<ResourceGuard<I, T>>),
    /// Work that has to be done first.
    Future(Operation<I, T>),
}

impl<I, T> ResourceResolve<I, T> {
    /// There is no resource.
    pub fn empty() -> (r: Self)
        ensures
            r == ResourceResolve::<I, T>::Resource(None),
    {
        ResourceResolve::Resource(None)
    }

    /// Check whether there is no resource.
    pub fn is_empty(&self) -> (r: bool)
        ensures
            r == (*self == ResourceResolve::<I, T>::Resource(None)),
    {
        matches!(self, ResourceResolve::Resource(None))
    }

    /// Check whether work has to be done first.
    pub fn is_pending(&self) -> (r: bool)
        ensures
            r == (*self is Future),
    {
        matches!(self, ResourceResolve::Future(_))
    }

    /// Take the resource, if it is there.
    pub fn take_resource(&mut self) -> (r: Option<ResourceGuard<I, T>>)
        ensures
            match *old(self) {
                ResourceResolve::Resource(res) => r == res && *final(self) == ResourceResolve::<
                    I,
                    T,
                >::Resource(None),
                ResourceResolve::Future(_) => r is None && *final(self) == *old(self),
            },
    {
        match self {
            ResourceResolve::Resource(res) => res.take(),
            ResourceResolve::Future(_) => None,
        }
    }
}

/// Complete the creation of a resource.
///
/// The guard comes back with the error if the creation failed.
pub fn resource_create<T, E>(
    guard: ResourceGuard<ResourceInfo, T>,
    result: Result<T, E>,
    now: u128,
) -> (r: Result<ResourceGuard<ResourceInfo, T>, (E, ResourceGuard<ResourceInfo, T>)>)
    requires
        guard@.value is None,
    ensures
        match result {
            Ok(value) => r is Ok && r->Ok_0@ == (GuardView {
                info: ResourceInfo { created_at: Some(now), ..guard@.info },
                value: Some(value),
                ..guard@
            }),
            Err(err) => r is Err && r->Err_0.0 == err && r->Err_0.1@ == guard@,
        },
{
    let mut guard: ResourceGuard<ResourceInfo, T> = guard;
    match result {
        Ok(res) => {
            let _ = guard.replace(res);
            guard.info_mut().created_at = Some(now);
            Ok(guard)
        },
        Err(err) => Err((err, guard)),
    }
}

/// Complete the check of a resource. One that is no longer good expires.
///
/// The guard comes back with the error if the check failed.
pub fn resource_verify<T, E>(
    guard: ResourceGuard<ResourceInfo, T>,
    result: Result<bool, E>,
) -> (r: Result<ResourceGuard<ResourceInfo, T>, (E, ResourceGuard<ResourceInfo, T>)>)
    ensures
        match result {
            Ok(good) => r is Ok && r->Ok_0@ == (GuardView {
                info: ResourceInfo { expired: guard@.info.expired || !good, ..guard@.info },
                ..guard@
            }),
            Err(err) => r is Err && r->Err_0.0 == err && r->Err_0.1@ == guard@,
        },
{
    let mut guard: ResourceGuard<ResourceInfo, T> = guard;
    match result {
        Ok(good) => {
            if !good {
                guard.info_mut().expired = true;
            }
            Ok(guard)
        },
        Err(err) => Err((err, guard)),
    }
}

/// Start replacing a resource, or disposing of it: take it out.
pub fn begin_update<I: Copy, T>(guard: &mut ResourceGuard<I, T>) -> (r: (T, I))
    requires
        old(guard)@.value is Some,
    ensures
        r == (old(guard)@.value->0, old(guard)@.info),
        final(guard)@ == (GuardView::<I, T> { value: None, ..old(guard)@ }),
{
    match guard.take() {
        Some(res) => (res, *guard.info()),
        None => vstd::pervasive::unreached(),
    }
}

/// Complete the replacement of a resource that was taken out.
///
/// Without a replacement there is no resource from then on. The guard comes back
/// with the error if the replacement failed.
pub fn resource_update<I, T, E>(
    guard: ResourceGuard<I, T>,
    result: Result<Option<T>, E>,
) -> (r: Result<ResourceGuard<I, T>, (E, ResourceGuard<I, T>)>)
    requires
        guard@.value is None,
    ensures
        match result {
            Ok(value) => r is Ok && r->Ok_0@ == (GuardView::<I, T> { value, ..guard@ }),
            Err(err) => r is Err && r->Err_0.0 == err && r->Err_0.1@ == guard@,
        },
{
    let mut guard: ResourceGuard<I, T> = guard;
    match result {
        Ok(optres) => {
            if let Some(res) = optres {
                let _ = guard.replace(res);
            }
            Ok(guard)
        },
        Err(err) => Err((err, guard)),
    }
}

/// Complete disposing of a resource that was taken out.
///
/// The guard comes back with the error if that failed.
pub fn resource_dispose<I, T, E>(guard: ResourceGuard<I, T>, result: Result<(), E>) -> (r: Result<
    ResourceGuard<I, T>,
    (E, ResourceGuard<I, T>),
>)
    requires
        guard@.value is None,
    ensures
        match result {
            Ok(_) => r is Ok && r->Ok_0@ == guard@,
            Err(err) => r is Err && r->Err_0.0 == err && r->Err_0.1@ == guard@,
        },
{
    match result {
        Ok(_) => Ok(guard),
        Err(err) => Err((err, guard)),
    }
}

} // verus!
