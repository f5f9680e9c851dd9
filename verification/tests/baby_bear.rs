use circle_pcs::baby_bear::{monty_reduce, to_monty, BabyBear, BABY_BEAR_P};
use circle_pcs::baby_bear_poseidon2::{
    matmul_internal_shift, matrix_diag_16_babybear_monty, matrix_diag_24_babybear_monty,
    DiffusionMatrixBabybear, DiffusionMatrixBabybearScalar, MATRIX_DIAG_16_BABYBEAR_U32,
    MATRIX_DIAG_16_MONTY_SHIFTS, MATRIX_DIAG_24_BABYBEAR_U32,
};
use circle_pcs::field::Ring;
use circle_pcs::symmetric::Permutation;
use p3_field::{PrimeCharacteristicRing, PrimeField32};

fn values(seed: u64, n: usize) -> Vec<u32> {
    let mut s = seed;
    (0..n)
        .map(|_| {
            s = s.wrapping_mul(6364136223846793005).wrapping_add(1442695040888963407);
            ((s >> 33) % (BABY_BEAR_P as u64)) as u32
        })
        .collect()
}

#[test]
fn test_poseidon2_constants() {
    let monty_constant = MATRIX_DIAG_16_BABYBEAR_U32.map(BabyBear::from_canonical_u32);
    assert_eq!(monty_constant, matrix_diag_16_babybear_monty());

    let monty_constant = MATRIX_DIAG_24_BABYBEAR_U32.map(BabyBear::from_canonical_u32);
    assert_eq!(monty_constant, matrix_diag_24_babybear_monty());
}

#[test]
fn monty_form_of_one_and_back() {
    assert_eq!(to_monty(1), 268435454);
    assert_eq!(monty_reduce(268435454), 1);
    assert_eq!(BabyBear::one().as_canonical_u32(), 1);
    assert_eq!(BabyBear::from_canonical_u32(BABY_BEAR_P - 1).as_canonical_u32(), BABY_BEAR_P - 1);
    assert_eq!(BabyBear::from_canonical_u32(BABY_BEAR_P).as_canonical_u32(), 0);
}

#[test]
fn baby_bear_arithmetic_agrees_with_the_field_crate() {
    let xs = values(3, 64);
    for w in xs.windows(2) {
        let (a, b) = (w[0], w[1]);
        let (x, y) = (BabyBear::from_canonical_u32(a), BabyBear::from_canonical_u32(b));
        let (p, q) = (p3_baby_bear::BabyBear::new(a), p3_baby_bear::BabyBear::new(b));
        assert_eq!(x.plus(y).as_canonical_u32(), (p + q).as_canonical_u32());
        assert_eq!(x.minus(y).as_canonical_u32(), (p - q).as_canonical_u32());
        assert_eq!(x.times(y).as_canonical_u32(), (p * q).as_canonical_u32());
        assert_eq!(x.negate().as_canonical_u32(), (-p).as_canonical_u32());
    }
    assert_eq!(BabyBear::from_u64(11).as_canonical_u32(), 11);
    assert_eq!(p3_baby_bear::BabyBear::ONE.as_canonical_u32(), BabyBear::one().as_canonical_u32());
}

#[test]
fn diffusion_matrix_is_ones_plus_diagonal() {
    let xs = values(9, 16);
    let mut state = [BabyBear::zero(); 16];
    for i in 0..16 {
        state[i] = BabyBear::from_canonical_u32(xs[i]);
    }
    let sum: u64 = xs.iter().map(|&x| x as u64).sum::<u64>() % (BABY_BEAR_P as u64);
    let out = DiffusionMatrixBabybear.permute(state);
    for i in 0..16 {
        let d = (MATRIX_DIAG_16_BABYBEAR_U32[i] % BABY_BEAR_P) as u64;
        let expected = (xs[i] as u64 * d + sum) % (BABY_BEAR_P as u64);
        assert_eq!(out[i].as_canonical_u32() as u64, expected);
    }
    let mut in_place = state;
    DiffusionMatrixBabybear.permute_mut(&mut in_place);
    assert_eq!(in_place, out);
}

#[test]
fn scalar_diffusion_matrix_shifts_and_divides_by_two_to_the_32() {
    let xs = values(21, 16);
    let mut state = [BabyBear::zero(); 16];
    for i in 0..16 {
        state[i] = BabyBear::from_canonical_u32(xs[i]);
    }
    let p = BABY_BEAR_P as u128;
    let r_inv = 943718400u128;
    let sum: u128 = xs.iter().map(|&x| x as u128).sum::<u128>() % p;
    let out = DiffusionMatrixBabybearScalar.permute(state);
    assert_eq!(out[0].as_canonical_u32() as u128, sum * r_inv % p);
    for i in 1..16 {
        let s = MATRIX_DIAG_16_MONTY_SHIFTS[i] as u32;
        let expected = (((xs[i] as u128) << s) + sum) % p * r_inv % p;
        assert_eq!(out[i].as_canonical_u32() as u128, expected);
    }
    let mut direct = state;
    matmul_internal_shift(&mut direct, MATRIX_DIAG_16_MONTY_SHIFTS);
    assert_eq!(direct, out);
}
