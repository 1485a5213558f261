//! Pairing two sequences by position, up to the longer one.
use vstd::prelude::*;
use itertools::EitherOrBoth;
use itertools::Itertools;

verus! {

/// The pair found at one position of two sequences walked side by side.
pub enum Paired<A, B> {
    /// Both sequences have an item there.
    Both(A, B),
    /// Only the first sequence reaches that far.
    Left(A),
    /// Only the second sequence reaches that far.
    Right(B),
}

/// The pair at position `i` of `a` and `b`.
pub open spec fn paired_at<A, B>(a: Seq<A>, b: Seq<B>, i: int) -> Paired<A, B> {
    if i < a.len() && i < b.len() {
        Paired::Both(a[i], b[i])
    } else if i < a.len() {
        Paired::Left(a[i])
    } else {
        Paired::Right(b[i])
    }
}

/// Relies on itertools::Itertools::zip_longest, which yields `Both` while
/// both iterators yield, then `Left` or `Right` for the rest of the longer.
#[verifier::external_body]
pub(crate) fn zip_longest<A, B>(a: Vec<A>, b: Vec<B>) -> (r: Vec<Paired<A, B>>)
    ensures
        r@.len() == if a@.len() >= b@.len() {
            a@.len()
        } else {
            b@.len()
        },
        forall|i: int| 0 <= i < r@.len() ==> #[trigger] r@[i] == paired_at(a@, b@, i),
{
    a.into_iter().zip_longest(b).map(|z| match z {
        EitherOrBoth::Both(x, y) => Paired::Both(x, y),
        EitherOrBoth::Left(x) => Paired::Left(x),
        EitherOrBoth::Right(y) => Paired::Right(y),
    }).collect()
}

} // verus!
