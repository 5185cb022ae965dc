use vstd::prelude::*;

verus! {

/// A child that is either held by its parent alone, or lives in a shared
/// slot that any number of parents may name.
#[derive(Debug)]
pub enum Sharable<T> {
    /// The parent holds the value itself.
    Owned(T),
    /// The value lives in the shared slot with this number.
    Shared(usize),
}

impl<T> Sharable<T> {
    /// Wraps a value that this holder alone owns.
    pub fn owned(value: T) -> (s: Self)
        ensures
            s == Sharable::Owned(value),
    {
        Sharable::Owned(value)
    }

    /// Names the shared slot `slot`; the value in it is not touched.
    pub fn shared(slot: usize) -> (s: Self)
        ensures
            s == Sharable::<T>::Shared(slot),
    {
        Sharable::Shared(slot)
    }
}

impl<T> From<T> for Sharable<T> {
    fn from(value: T) -> (s: Self) {
        Sharable::Owned(value)
    }
}

impl<T> vstd::std_specs::convert::FromSpecImpl<T> for Sharable<T> {
    open spec fn obeys_from_spec() -> bool {
        true
    }

    open spec fn from_spec(value: T) -> Self {
        Sharable::Owned(value)
    }
}

} // verus!
