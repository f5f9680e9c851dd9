//! The diffusion matrices of Poseidon2 over the BabyBear field.

use vstd::prelude::*;
use vstd::arithmetic::power2::pow2;
use crate::baby_bear::{monty_reduce, monty_reduce_spec, to_babybear_array, to_babybear_array_spec, BabyBear, BABY_BEAR_P};
use crate::field::Ring;
use crate::poseidon2::{array_of, lemma_array_of, matmul_internal, matmul_internal_spec};
use crate::symmetric::{DiffusionPermutation, Permutation};

verus! {

/// The diagonal, less one, of the inner matrix of width sixteen.
pub const MATRIX_DIAG_16_BABYBEAR_U32: [u32; 16] = [
    0x0a632d94,
    0x6db657b7,
    0x56fbdc9e,
    0x052b3d8a,
    0x33745201,
    0x5c03108c,
    0x0beba37b,
    0x258c2e8b,
    0x12029f39,
    0x694909ce,
    0x6d231724,
    0x21c3b222,
    0x3c0904a5,
    0x01d6acda,
    0x27705c83,
    0x5231c802,
];

/// The diagonal, less one, of the inner matrix of width twenty-four.
pub const MATRIX_DIAG_24_BABYBEAR_U32: [u32; 24] = [
    0x409133f0,
    0x1667a8a1,
    0x06a6c7b6,
    0x6f53160e,
    0x273b11d1,
    0x03176c5d,
    0x72f9bbf9,
    0x73ceba91,
    0x5cdef81d,
    0x01393285,
    0x46daee06,
    0x065d7ba6,
    0x52d72d6f,
    0x05dd05e0,
    0x3bab4b63,
    0x6ada3842,
    0x2fc5fbec,
    0x770d61b0,
    0x5715aae9,
    0x03ef0e90,
    0x75b6c770,
    0x242adf5f,
    0x00d0ca4c,
    0x36c0e388,
];

/// The powers of two on the diagonal of the scalar matrix of width sixteen,
/// as exponents. The first entry is never read.
pub const MATRIX_DIAG_16_MONTY_SHIFTS: [i32; 16] = [
    -64,
    0,
    1,
    2,
    3,
    4,
    5,
    6,
    7,
    8,
    9,
    10,
    11,
    13,
    15,
    16,
];

/// The diagonal of width sixteen as field elements.
pub fn matrix_diag_16_babybear_monty() -> (r: [BabyBear; 16])
    ensures
        r@ == to_babybear_array_spec(MATRIX_DIAG_16_BABYBEAR_U32),
{
    to_babybear_array(MATRIX_DIAG_16_BABYBEAR_U32)
}

/// The diagonal of width twenty-four as field elements.
pub fn matrix_diag_24_babybear_monty() -> (r: [BabyBear; 24])
    ensures
        r@ == to_babybear_array_spec(MATRIX_DIAG_24_BABYBEAR_U32),
{
    to_babybear_array(MATRIX_DIAG_24_BABYBEAR_U32)
}

/// The sum of the reduced values of the first `n` entries.
pub open spec fn value_sum_spec(state: Seq<BabyBear>, n: nat) -> nat
    decreases n,
{
    if n == 0 {
        0
    } else {
        value_sum_spec(state, (n - 1) as nat) + state[n - 1].reduced()
    }
}

/// The exponents from the second on are between zero and thirty-one.
pub open spec fn shifts_ok(shifts: Seq<i32>) -> bool {
    forall|i: int| 1 <= i < shifts.len() ==> 0 <= #[trigger] shifts[i] < 32
}

/// The state times the matrix of ones plus a diagonal of powers of two,
/// the whole divided by `2^32`: the first entry becomes the sum of the
/// held values, each other entry its held value times its power of two
/// plus the sum, all taken through the Montgomery reduction.
pub open spec fn matmul_internal_shift_spec(state: Seq<BabyBear>, shifts: Seq<i32>) -> Seq<BabyBear> {
    let sum = value_sum_spec(state, state.len());
    Seq::new(
        state.len(),
        |i: int|
            if i == 0 {
                BabyBear { value: monty_reduce_spec(sum as u64) }
            } else {
                BabyBear {
                    value: monty_reduce_spec(
                        (state[i].reduced() * pow2(shifts[i] as nat) + sum) as u64,
                    ),
                }
            },
    )
}

proof fn lemma_value_sum_bound(state: Seq<BabyBear>, n: nat)
    ensures
        value_sum_spec(state, n) <= n * 0x7800_0000,
    decreases n,
{
    if n > 0 {
        lemma_value_sum_bound(state, (n - 1) as nat);
        assert((n - 1) * 0x7800_0000 + 0x7800_0000 == n * 0x7800_0000) by (nonlinear_arith);
    }
}

/// Multiplies the state by the scalar matrix whose diagonal holds the powers
/// of two with the given exponents.
pub fn matmul_internal_shift<const WIDTH: usize>(
    state: &mut [BabyBear; WIDTH],
    mat_internal_diag_shifts: [i32; WIDTH],
)
    requires
        1 <= WIDTH <= 0x1_0000,
        shifts_ok(mat_internal_diag_shifts@),
    ensures
        final(state)@ == matmul_internal_shift_spec(old(state)@, mat_internal_diag_shifts@),
{
    let ghost before = state@;
    let mut sum: u64 = 0;
    let mut j: usize = 0;
    while j < WIDTH
        invariant
            j <= WIDTH,
            WIDTH <= 0x1_0000,
            state@ == before,
            sum == value_sum_spec(before, j as nat),
        decreases WIDTH - j,
    {
        proof {
            lemma_value_sum_bound(before, j as nat);
            assert(j * 0x7800_0000 <= 0x1_0000 * 0x7800_0000) by (nonlinear_arith)
                requires
                    j <= 0x1_0000,
            ;
        }
        sum = sum + (state[j].value % BABY_BEAR_P) as u64;
        j += 1;
    }
    proof {
        lemma_value_sum_bound(before, WIDTH as nat);
        assert(WIDTH * 0x7800_0000 <= 0x1_0000 * 0x7800_0000) by (nonlinear_arith)
            requires
                WIDTH <= 0x1_0000,
        ;
    }
    state[0] = BabyBear { value: monty_reduce(sum) };
    let mut i: usize = 1;
    while i < WIDTH
        invariant
            1 <= i <= WIDTH,
            before.len() == WIDTH,
            shifts_ok(mat_internal_diag_shifts@),
            sum == value_sum_spec(before, WIDTH as nat),
            sum <= 0x1_0000 * 0x7800_0000,
            forall|k: int|
                0 <= k < i ==> state@[k] == matmul_internal_shift_spec(
                    before,
                    mat_internal_diag_shifts@,
                )[k],
            forall|k: int| i <= k < WIDTH ==> state@[k] == before[k],
        decreases WIDTH - i,
    {
        let shift = mat_internal_diag_shifts[i];
        let v: u64 = (state[i].value % BABY_BEAR_P) as u64;
        proof {
            vstd::arithmetic::power2::lemma2_to64();
            if shift < 31 {
                vstd::arithmetic::power2::lemma_pow2_strictly_increases(shift as nat, 31);
            }
            assert(v * pow2(shift as nat) <= 0x7800_0000 * 0x8000_0000) by (nonlinear_arith)
                requires
                    v <= 0x7800_0000,
                    pow2(shift as nat) <= 0x8000_0000,
            ;
            vstd::bits::lemma_u64_shl_is_mul(v, shift as u64);
        }
        let result: u64 = (v << (shift as u64)) + sum;
        state[i] = BabyBear { value: monty_reduce(result) };
        i += 1;
    }
    assert(state@ =~= matmul_internal_shift_spec(before, mat_internal_diag_shifts@));
}

/// The inner matrix over BabyBear, by multiplications.
#[derive(Clone, Copy, Default, Debug)]
pub struct DiffusionMatrixBabybear;

impl Permutation<[BabyBear; 16]> for DiffusionMatrixBabybear {
    open spec fn permute_spec(&self, input: [BabyBear; 16]) -> [BabyBear; 16] {
        array_of(
            matmul_internal_spec(input@, to_babybear_array_spec(MATRIX_DIAG_16_BABYBEAR_U32)),
        )
    }

    open spec fn accepts(&self, input: [BabyBear; 16]) -> bool {
        true
    }

    fn permute(&self, input: [BabyBear; 16]) -> (r: [BabyBear; 16]) {
        let mut output = input;
        matmul_internal(&mut output, matrix_diag_16_babybear_monty());
        proof {
            lemma_array_of(output);
        }
        output
    }

    fn permute_mut(&self, state: &mut [BabyBear; 16]) {
        matmul_internal(state, matrix_diag_16_babybear_monty());
        proof {
            lemma_array_of(*state);
        }
    }
}

impl DiffusionPermutation<BabyBear, 16> for DiffusionMatrixBabybear {

}

impl Permutation<[BabyBear; 24]> for DiffusionMatrixBabybear {
    open spec fn permute_spec(&self, input: [BabyBear; 24]) -> [BabyBear; 24] {
        array_of(
            matmul_internal_spec(input@, to_babybear_array_spec(MATRIX_DIAG_24_BABYBEAR_U32)),
        )
    }

    open spec fn accepts(&self, input: [BabyBear; 24]) -> bool {
        true
    }

    fn permute(&self, input: [BabyBear; 24]) -> (r: [BabyBear; 24]) {
        let mut output = input;
        matmul_internal(&mut output, matrix_diag_24_babybear_monty());
        proof {
            lemma_array_of(output);
        }
        output
    }

    fn permute_mut(&self, state: &mut [BabyBear; 24]) {
        matmul_internal(state, matrix_diag_24_babybear_monty());
        proof {
            lemma_array_of(*state);
        }
    }
}

impl DiffusionPermutation<BabyBear, 24> for DiffusionMatrixBabybear {

}

/// The inner matrix of width sixteen over BabyBear whose diagonal holds
/// powers of two, by shifts.
#[derive(Clone, Copy, Default, Debug)]
pub struct DiffusionMatrixBabybearScalar;

impl Permutation<[BabyBear; 16]> for DiffusionMatrixBabybearScalar {
    open spec fn permute_spec(&self, input: [BabyBear; 16]) -> [BabyBear; 16] {
        array_of(matmul_internal_shift_spec(input@, MATRIX_DIAG_16_MONTY_SHIFTS@))
    }

    open spec fn accepts(&self, input: [BabyBear; 16]) -> bool {
        true
    }

    fn permute(&self, input: [BabyBear; 16]) -> (r: [BabyBear; 16]) {
        let mut output = input;
        matmul_internal_shift(&mut output, MATRIX_DIAG_16_MONTY_SHIFTS);
        proof {
            lemma_array_of(output);
        }
        output
    }

    fn permute_mut(&self, state: &mut [BabyBear; 16]) {
        matmul_internal_shift(state, MATRIX_DIAG_16_MONTY_SHIFTS);
        proof {
            lemma_array_of(*state);
        }
    }
}

impl DiffusionPermutation<BabyBear, 16> for DiffusionMatrixBabybearScalar {

}

} // verus!
