//! A one-slot wrapper with the two operations that monadic notation needs.
use vstd::prelude::*;

verus! {

/// A value in a one-slot wrapper.
pub struct V<A> {
    pub a: A,
}

impl<A> V<A> {
    /// Feeds the wrapped value to `f`.
    pub fn and_then<B, F: FnOnce(A) -> V<B>>(self, f: F) -> (r: V<B>)
        requires
            f.requires((self.a,)),
        ensures
            f.ensures((self.a,), r),
    {
        f(self.a)
    }

    /// Wraps `a`.
    pub fn lift(a: A) -> (r: V<A>)
        ensures
            r.a == a,
    {
        V { a }
    }
}

} // verus!
