use vstd::prelude::*;

verus! {

/// A value of another crate's type, wrapped so that traits of this
/// project can be implemented for it.
#[derive(Clone, Copy, Debug, PartialEq, Eq)]
pub struct Adapter<T> {
    pub inner: T,
}

impl<T> Adapter<T> {
    /// Wraps a value.
    pub fn new(inner: T) -> (r: Self)
        ensures
            r.inner == inner,
    {
        Adapter { inner }
    }

    /// Hands the wrapped value out.
    pub fn into_inner(self) -> (r: T)
        ensures
            r == self.inner,
    {
        self.inner
    }
}

} // verus!
