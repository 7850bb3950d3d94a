//! A handle reference that is either bound to a specific handle or falls
//! back to the one installed on the current thread at the time of binding.

use vstd::prelude::*;

verus! {

/// Refers to a specific handle, or to the current one when unbound.
#[derive(Debug, Clone)]
pub struct LazyHandle<T> {
    handle: Option<T>,
}

impl<T> LazyHandle<T> {
    /// The specific handle, if one was given.
    pub closed spec fn bound(&self) -> Option<T> {
        self.handle
    }

    /// Use the current handle at the time `bind` is called.
    pub fn new() -> (r: Self)
        ensures
            r.bound() is None,
    {
        LazyHandle { handle: None }
    }

    /// Bind to this specific handle.
    pub fn from_handle(handle: T) -> (r: Self)
        ensures
            r.bound() == Some(handle),
    {
        LazyHandle { handle: Some(handle) }
    }

    /// Whether this refers to a specific handle, rather than to whatever is
    /// current when `bind` is called.
    pub fn is_bound(&self) -> (r: bool)
        ensures
            r == (self.bound() is Some),
    {
        self.handle.is_some()
    }

    /// The handle this was created with, or the given current one.
    pub fn bind<'a>(&'a self, current: &'a Option<T>) -> (r: &'a Option<T>)
        ensures
            self.bound() is Some ==> *r == self.bound(),
            self.bound() is None ==> *r == *current,
    {
        match &self.handle {
            Some(_) => &self.handle,
            None => current,
        }
    }
}

impl<T> Default for LazyHandle<T> {
    fn default() -> (r: Self)
        ensures
            r.bound() is None,
    {
        Self::new()
    }
}

} // verus!
