//! Permutations of states, and the kinds of them that a Poseidon
//! construction is built from.

use vstd::prelude::*;

verus! {

/// A map of states to states, to be used by value or in place.
pub trait Permutation<T> {
    /// The image of `input`.
    spec fn permute_spec(&self, input: T) -> T;

    /// The states that the permutation is defined for.
    spec fn accepts(&self, input: T) -> bool;

    fn permute(&self, input: T) -> (r: T)
        requires
            self.accepts(input),
        ensures
            r == self.permute_spec(input),
    ;

    fn permute_mut(&self, input: &mut T)
        requires
            self.accepts(*old(input)),
        ensures
            *final(input) == self.permute_spec(*old(input)),
    ;
}

/// A permutation by a matrix that mixes every entry into every other.
pub trait MdsPermutation<T, const WIDTH: usize>: Permutation<[T; WIDTH]> {

}

/// A permutation by a light matrix of the kind that the outer rounds of
/// Poseidon2 use.
pub trait MdsLightPermutation<T, const WIDTH: usize>: Permutation<[T; WIDTH]> {

}

/// A permutation by a matrix of ones with a diagonal added, of the kind that
/// the inner rounds of Poseidon2 use.
pub trait DiffusionPermutation<T, const WIDTH: usize>: Permutation<[T; WIDTH]> {

}

} // verus!
