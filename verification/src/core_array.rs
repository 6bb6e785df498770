//! Contracts assumed of the standard-library functions that the rest of the
//! crate is built on: three that make arrays, and `Hash::hash`. None is
//! proved here: each restates what the standard library documents.

use vstd::prelude::*;

verus! {

/// `core::array::from_fn` builds an array by calling `f` with each index in
/// turn, from `0` up to `N - 1`. The contract asks that `f` may be called on
/// every index below `N`, and claims that the element stored at each index
/// is a value that `f` can return for that index.
pub assume_specification<T, const N: usize, F>[ core::array::from_fn::<T, N, F> ](f: F) -> (block:
    [T; N]) where F: FnMut(usize) -> T
    requires
        forall|i: usize| i < N ==> call_requires(f, (i,)),
    ensures
        forall|i: usize| i < N ==> call_ensures(f, (i,), #[trigger] block@[i as int]),
;

/// `<[T; N]>::map` consumes an array and returns one of the same length in
/// which each element is `visit` applied to the element at the same index of
/// the input, visited in order. The contract asks that `visit` may be called
/// on every element, and claims that each output element is a value that
/// `visit` can return for the input element at its index.
#[verifier::external_body]
pub(crate) fn map_block<T, U, F: FnMut(T) -> U, const N: usize>(block: [T; N], visit: F) -> (mapped:
    [U; N])
    requires
        forall|i: int| 0 <= i < N ==> call_requires(visit, (#[trigger] block@[i],)),
    ensures
        forall|i: int| 0 <= i < N ==> call_ensures(visit, (block@[i],), #[trigger] mapped@[i]),
{
    block.map(visit)
}

/// `Box<[T; N]>::try_from(Vec<T>)` turns a vector of exactly `N` elements
/// into a boxed array of the same elements in the same order, and hands the
/// vector back as an error for any other length. The contract leaves those
/// lengths out and claims that the elements are kept.
#[verifier::external_body]
pub(crate) fn boxed_block<T, const N: usize>(items: Vec<T>) -> (block: Box<[T; N]>)
    requires
        items@.len() == N,
    ensures
        block@ == items@,
{
    match Box::<[T; N]>::try_from(items) {
        Ok(block) => block,
        Err(_) => vstd::pervasive::unreached(),
    }
}

/// `Hash::hash` feeds a value into a hasher. What this does to the hasher
/// is the hasher's own affair, and nothing is claimed of it.
#[verifier::external_body]
pub(crate) fn feed<T: core::hash::Hash, H: core::hash::Hasher>(item: &T, state: &mut H) {
    item.hash(state)
}

} // verus!
