//! Weights shared for reading: a store behind a reference count.

use vstd::prelude::*;
use crate::regressor::Weight;

verus! {

#[verifier::external_type_specification]
#[verifier::external_body]
#[verifier::reject_recursive_types(T)]
pub struct ExArc<T: ?Sized>(triomphe::Arc<T>);

/// `Clone` of `triomphe::Arc` adds one to the reference count and hands back
/// a pointer to the same allocation: the clone is the store that was cloned.
/// (The process is aborted should the count ever pass `isize::MAX`.)
pub assume_specification<T: ?Sized>[ <triomphe::Arc<T> as Clone>::clone ](
    shared: &triomphe::Arc<T>,
) -> (again: triomphe::Arc<T>)
    ensures
        again == *shared,
;

/// The weights that a shared store holds.
pub uninterp spec fn held(shared: triomphe::Arc<Vec<Weight>>) -> Seq<Weight>;

/// Moves a store behind a reference count, with `triomphe::Arc::new`: the
/// shared store holds the weights that were handed in.
#[verifier::external_body]
pub(crate) fn share(weights: Vec<Weight>) -> (shared: triomphe::Arc<Vec<Weight>>)
    ensures
        held(shared) == weights@,
{
    triomphe::Arc::new(weights)
}

/// Borrows the weights of a shared store, through the `Deref` of
/// `triomphe::Arc`: the borrowed store is the one that is held.
#[verifier::external_body]
pub(crate) fn borrow_held(shared: &triomphe::Arc<Vec<Weight>>) -> (weights: &Vec<Weight>)
    ensures
        weights@ == held(*shared),
{
    std::ops::Deref::deref(shared)
}

} // verus!
