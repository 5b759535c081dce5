//! A write-once holder for a shared instance.
//!
//! The holder starts empty, is initialized exactly once, and afterwards
//! hands out shared handles to the one instance.

use vstd::prelude::*;
use std::sync::Arc;

verus! {

/// Relies on Clone for std::sync::Arc: the clone is a second handle to the
/// same allocation, so it carries the same value.
#[verifier::external_body]
fn arc_clone<T>(a: &Arc<T>) -> (r: Arc<T>)
    ensures
        *r == **a,
{
    a.clone()
}

/// A write-once holder: empty until [`GlobalInstance::init`], then a fixed
/// shared instance.
#[derive(Debug)]
pub struct GlobalInstance<T> {
    value: Option<Arc<T>>,
}

impl<T> GlobalInstance<T> {
    /// The held instance, if initialized.
    pub closed spec fn instance(&self) -> Option<T> {
        match self.value {
            Some(a) => Some(*a),
            None => None,
        }
    }

    /// An empty, uninitialized holder.
    pub fn new() -> (s: GlobalInstance<T>)
        ensures
            s.instance() is None,
    {
        GlobalInstance { value: None }
    }

    /// Set the instance. May happen only once.
    pub fn init(&mut self, value: T)
        requires
            old(self).instance() is None,
        ensures
            final(self).instance() == Some(value),
    {
        self.value = Some(Arc::new(value));
    }

    /// A shared handle to the initialized instance.
    pub fn clone_arc(&self) -> (r: Arc<T>)
        requires
            self.instance() is Some,
        ensures
            Some(*r) == self.instance(),
    {
        arc_clone(self.value.as_ref().unwrap())
    }
}

} // verus!
