//! One field of a replica.

use vstd::prelude::*;

verus! {

/// A value that is a property of a replica.
pub struct Property<T> {
    inner: T,
}

impl<T> Property<T> {
    /// The value held.
    pub closed spec fn view(&self) -> T {
        self.inner
    }

    /// A property that holds `value`.
    pub fn new(value: T) -> (property: Self)
        ensures
            property@ == value,
    {
        Property { inner: value }
    }

    /// The value held.
    pub fn get(&self) -> (value: &T)
        ensures
            *value == self@,
    {
        &self.inner
    }

    /// Replaces the value held.
    pub fn set(&mut self, value: T)
        ensures
            final(self)@ == value,
    {
        self.inner = value;
    }
}

} // verus!
