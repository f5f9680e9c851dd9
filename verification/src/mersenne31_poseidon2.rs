//! The layers of Poseidon2 over the Mersenne-31 field.

use vstd::prelude::*;
use crate::field::Ring;
use crate::mersenne31::M31;
use crate::poseidon2::{array_of, lemma_array_of, matmul_internal, matmul_internal_spec};
use crate::symmetric::{DiffusionPermutation, Permutation};

verus! {

/// The diagonal, less one, of the inner matrix of width sixteen: zero and
/// powers of two.
pub const MATRIX_DIAG_16_MERSENNE31_U32: [u32; 16] = [
    0,
    1,
    2,
    4,
    8,
    16,
    32,
    64,
    128,
    256,
    512,
    2048,
    8192,
    16384,
    32768,
    65536,
];

/// The field elements with the given values.
pub open spec fn to_mersenne31_array_spec<const N: usize>(input: [u32; N]) -> Seq<M31> {
    Seq::new(N as nat, |i: int| M31 { value: input@[i] % crate::mersenne31::P })
}

/// The field elements with the given values.
pub fn to_mersenne31_array<const N: usize>(input: [u32; N]) -> (r: [M31; N])
    ensures
        r@ == to_mersenne31_array_spec(input),
{
    let mut out: [M31; N] = [M31 { value: 0 };N];
    let mut i: usize = 0;
    while i < N
        invariant
            i <= N,
            forall|k: int|
                0 <= k < i ==> out@[k] == (M31 { value: input@[k] % crate::mersenne31::P }),
        decreases N - i,
    {
        out[i] = M31::new(input[i]);
        i += 1;
    }
    proof {
        assert(out@ =~= to_mersenne31_array_spec(input));
    }
    out
}

/// The inner matrix of width sixteen over the Mersenne-31 field.
#[derive(Clone, Copy, Default, Debug)]
pub struct DiffusionMatrixMersenne31;

impl Permutation<[M31; 16]> for DiffusionMatrixMersenne31 {
    open spec fn permute_spec(&self, input: [M31; 16]) -> [M31; 16] {
        array_of(
            matmul_internal_spec(input@, to_mersenne31_array_spec(MATRIX_DIAG_16_MERSENNE31_U32)),
        )
    }

    open spec fn accepts(&self, input: [M31; 16]) -> bool {
        true
    }

    fn permute(&self, input: [M31; 16]) -> (r: [M31; 16]) {
        let mut output = input;
        matmul_internal(&mut output, to_mersenne31_array(MATRIX_DIAG_16_MERSENNE31_U32));
        proof {
            lemma_array_of(output);
        }
        output
    }

    fn permute_mut(&self, state: &mut [M31; 16]) {
        matmul_internal(state, to_mersenne31_array(MATRIX_DIAG_16_MERSENNE31_U32));
        proof {
            lemma_array_of(*state);
        }
    }
}

impl DiffusionPermutation<M31, 16> for DiffusionMatrixMersenne31 {

}

/// The round constants of the outer rounds: those before the inner rounds
/// and those after them.
#[derive(Clone, Debug)]
pub struct ExternalLayerConstants<const WIDTH: usize> {
    pub initial: Vec<[M31; WIDTH]>,
    pub terminal: Vec<[M31; WIDTH]>,
}

/// The inner rounds of the permutation, given by their constants.
#[derive(Clone, Debug)]
pub struct Poseidon2InternalLayerMersenne31 {
    pub internal_constants: Vec<M31>,
}

impl Poseidon2InternalLayerMersenne31 {
    pub fn new_from_constants(internal_constants: Vec<M31>) -> (r: Self)
        ensures
            r.internal_constants == internal_constants,
    {
        Poseidon2InternalLayerMersenne31 { internal_constants }
    }
}

/// The outer rounds of the permutation, given by their constants.
#[derive(Clone, Debug)]
pub struct Poseidon2ExternalLayerMersenne31<const WIDTH: usize> {
    pub external_constants: ExternalLayerConstants<WIDTH>,
}

impl<const WIDTH: usize> Poseidon2ExternalLayerMersenne31<WIDTH> {
    pub fn new_from_constants(external_constants: ExternalLayerConstants<WIDTH>) -> (r: Self)
        ensures
            r.external_constants == external_constants,
    {
        Poseidon2ExternalLayerMersenne31 { external_constants }
    }
}

} // verus!
