//! Handles: a shared borrow of a value, and a shared, lockable value. The
//! lock itself is taken by the caller, outside the verified code.
use vstd::prelude::*;
use std::ops::Deref;
use std::sync::{Arc, RwLock};

verus! {

#[verifier::external_type_specification]
#[verifier::external_body]
#[verifier::reject_recursive_types(T)]
pub struct ExRwLock<T: ?Sized>(RwLock<T>);

/// `Arc::clone`: another pointer to the same allocation, so the same value.
#[verifier::external_body]
fn share<T>(a: &Arc<T>) -> (r: Arc<T>)
    ensures
        r == *a,
{
    Arc::clone(a)
}

/// Something that can lend itself out as a handle.
pub trait AsHandle {
    /// A handle to `self`.
    fn as_handle(&self) -> (h: Handle<'_, Self>) where Self: Sized
        ensures
            h.target() == *self,
    ;
}

impl<T: Sized> AsHandle for T {
    fn as_handle(&self) -> (h: Handle<'_, T>) {
        Handle::new(self)
    }
}

/// A shared borrow of a value.
#[derive(Copy, Clone)]
pub struct Handle<'a, T> {
    _inner: &'a T,
}

impl<'a, T> Handle<'a, T> {
    /// The value the handle lends.
    pub closed spec fn target(&self) -> T {
        *self._inner
    }

    /// A handle lending `_inner`.
    pub fn new(_inner: &'a T) -> (h: Handle<'a, T>)
        ensures
            h.target() == *_inner,
    {
        Handle { _inner }
    }
}

impl<'a, T> Deref for Handle<'a, T> {
    type Target = T;

    /// The value the handle lends.
    fn deref(&self) -> (r: &T)
        ensures
            *r == self.target(),
    {
        self._inner
    }
}

/// A value shared between owners behind a reader-writer lock.
#[verifier::reject_recursive_types(T)]
pub struct HandleMut<T> {
    _inner: Arc<RwLock<T>>,
}

impl<T> HandleMut<T> {
    /// The shared lock.
    pub closed spec fn lock(&self) -> Arc<RwLock<T>> {
        self._inner
    }

    /// A handle sharing `_inner`.
    pub fn new(_inner: Arc<RwLock<T>>) -> (h: HandleMut<T>)
        ensures
            h.lock() == _inner,
    {
        HandleMut { _inner }
    }

    /// The shared lock, to be locked by the caller.
    pub fn shared(&self) -> (r: &Arc<RwLock<T>>)
        ensures
            *r == self.lock(),
    {
        &self._inner
    }
}

impl<T> Clone for HandleMut<T> {
    /// Another handle to the same lock, so to the same value.
    fn clone(&self) -> (h: HandleMut<T>)
        ensures
            h.lock() == self.lock(),
    {
        HandleMut { _inner: share(&self._inner) }
    }
}

} // verus!
