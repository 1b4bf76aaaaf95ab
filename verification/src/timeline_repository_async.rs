//! An adapter that offers a synchronous repository where an asynchronous
//! one is expected.
use vstd::prelude::*;

verus! {

/// Wraps a synchronous repository; its operations complete at once.
#[derive(Debug, Clone, PartialEq, Eq)]
pub struct AsyncFromSyncRepository<R> {
    inner: R,
}

impl<R> AsyncFromSyncRepository<R> {
    pub closed spec fn spec_inner(&self) -> R {
        self.inner
    }

    pub fn new(inner: R) -> (r: Self)
        ensures
            r.spec_inner() == inner,
    {
        Self { inner }
    }

    pub fn inner(&self) -> (r: &R)
        ensures
            *r == self.spec_inner(),
    {
        &self.inner
    }

    pub fn into_inner(self) -> (r: R)
        ensures
            r == self.spec_inner(),
    {
        self.inner
    }
}

} // verus!
