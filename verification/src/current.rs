//! Scoped "current" slot for per-thread executor handles.
//!
//! A slot holds a handle while a scoped region is entered and nothing
//! outside it. Entering an occupied slot is a caller error (the runtime
//! panics on nested entry), so `enter` demands an empty slot; the caller
//! pairs it with `exit` on every path out of the region, unwinding
//! included.

use vstd::prelude::*;

verus! {

/// Holds a value when entered or nothing when not.
#[derive(Debug)]
pub struct Current<T> {
    inner: Option<T>,
}

impl<T> Current<T> {
    /// The installed value, if any.
    pub closed spec fn value(&self) -> Option<T> {
        self.inner
    }

    /// Construct a new (empty) instance.
    pub fn new() -> (r: Self)
        ensures
            r.value() is None,
    {
        Current { inner: None }
    }

    /// Install `value` for the scoped region now entered.
    pub fn enter(&mut self, value: T)
        requires
            old(self).value() is None,
        ensures
            final(self).value() == Some(value),
    {
        self.inner = Some(value);
    }

    /// Clear the slot when the scoped region is left.
    pub fn exit(&mut self)
        ensures
            final(self).value() is None,
    {
        self.inner = None;
    }

    /// Read access to the current value.
    pub fn with(&self) -> (r: &Option<T>)
        ensures
            *r == self.value(),
    {
        &self.inner
    }

    /// Exclusive access to the current value.
    pub fn with_mut(&mut self) -> (r: &mut Option<T>)
        ensures
            *r == old(self).value(),
            final(self).value() == *final(r),
    {
        &mut self.inner
    }
}

} // verus!
