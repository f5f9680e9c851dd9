use circle_pcs::baby_bear::BabyBear;
use circle_pcs::constraint_consumer::{ConstraintCollector, ConstraintConsumer};
use circle_pcs::field::{pow, Ring};
use circle_pcs::folding::CircleBitrevPermutation;
use circle_pcs::matrix::RowMajorMatrix;
use circle_pcs::mds::{BabyBearExt4, MdsMatrixBabyBearExtension, NaiveMds, MATRIX_CIRC_MDS_16_BABYBEAR};
use circle_pcs::mersenne31::M31;
use circle_pcs::mersenne31_poseidon2::{
    DiffusionMatrixMersenne31, ExternalLayerConstants, Poseidon2ExternalLayerMersenne31,
    Poseidon2InternalLayerMersenne31, MATRIX_DIAG_16_MERSENNE31_U32,
};
use circle_pcs::permuted::{PermutedMatrix, RowPermutation};
use circle_pcs::poseidon2::{
    apply_hl_mat_4, apply_mat_4, matmul_internal, HLMDSMat4, MDSMat4, Poseidon2ExternalMatrix,
};
use circle_pcs::poseidon_air::{
    eval_round_flags, generate_trace_rows, get_num_poseidon_cols, PoseidonAir, PoseidonCols,
};
use circle_pcs::round_numbers::{poseidon_round_numbers_128, try_poseidon_round_numbers_128};
use circle_pcs::symmetric::Permutation;
use p3_field::{PrimeCharacteristicRing, PrimeField32};

fn m(v: u32) -> M31 {
    M31::new(v)
}

#[test]
fn hl_mat_4_is_the_matrix() {
    let mut x = [m(1), m(10), m(100), m(1000)];
    apply_hl_mat_4(&mut x);
    // [5 7 1 3; 4 6 1 1; 1 3 5 7; 1 1 4 6] times (1, 10, 100, 1000)
    assert_eq!(x, [m(3175), m(1164), m(7531), m(6411)]);
    assert_eq!(HLMDSMat4.permute([m(1), m(10), m(100), m(1000)]), x);
    let mut y = [m(0), m(0), m(1), m(0)];
    HLMDSMat4.permute_mut(&mut y);
    assert_eq!(y, [m(1), m(1), m(5), m(4)]);
}

#[test]
fn mat_4_is_the_matrix() {
    let mut x = [m(1), m(10), m(100), m(1000)];
    apply_mat_4(&mut x);
    // [2 3 1 1; 1 2 3 1; 1 1 2 3; 3 1 1 2] times (1, 10, 100, 1000)
    assert_eq!(x, [m(1132), m(1321), m(3211), m(2113)]);
    assert_eq!(MDSMat4.permute([m(1), m(10), m(100), m(1000)]), x);
    let mut y = [m(1), m(0), m(0), m(0)];
    MDSMat4.permute_mut(&mut y);
    assert_eq!(y, [m(2), m(1), m(1), m(3)]);
}

#[test]
fn external_matrix_of_small_widths_adds_the_sum() {
    let ext = Poseidon2ExternalMatrix::new(MDSMat4);
    let mut two = [m(3), m(5)];
    ext.permute_mut(&mut two);
    assert_eq!(two, [m(11), m(13)]);
    let mut three = [m(1), m(2), m(4)];
    ext.permute_mut(&mut three);
    assert_eq!(three, [m(8), m(9), m(11)]);
}

#[test]
fn external_matrix_is_circulant_in_the_four_by_four_blocks() {
    let ext = Poseidon2ExternalMatrix::new(MDSMat4);
    let mut state = [m(0); 8];
    state[0] = m(1);
    let out = ext.permute(state);
    // The first column: twice the block on the diagonal, once elsewhere.
    assert_eq!(out, [m(4), m(2), m(2), m(6), m(2), m(1), m(1), m(3)]);

    let mut four = [m(1), m(10), m(100), m(1000)];
    ext.permute_mut(&mut four);
    assert_eq!(four, [m(2264), m(2642), m(6422), m(4226)]);

    let hl = Poseidon2ExternalMatrix::new(HLMDSMat4);
    let mut sixteen = [BabyBear::zero(); 16];
    sixteen[5] = BabyBear::one();
    hl.permute_mut(&mut sixteen);
    let got: Vec<u32> = sixteen.iter().map(|x| x.as_canonical_u32()).collect();
    assert_eq!(got, vec![7, 6, 3, 1, 14, 12, 6, 2, 7, 6, 3, 1, 7, 6, 3, 1]);
}

#[test]
fn mersenne31_diffusion_matrix_is_ones_plus_diagonal() {
    let mut state = [m(0); 16];
    for i in 0..16 {
        state[i] = m(i as u32 + 1);
    }
    let out = DiffusionMatrixMersenne31.permute(state);
    for i in 0..16 {
        let expected = (i as u32 + 1) * MATRIX_DIAG_16_MERSENNE31_U32[i] + 136;
        assert_eq!(out[i], m(expected));
    }
    let mut in_place = state;
    DiffusionMatrixMersenne31.permute_mut(&mut in_place);
    assert_eq!(in_place, out);

    let mut small = [m(1), m(2), m(3)];
    matmul_internal(&mut small, [m(10), m(20), m(30)]);
    assert_eq!(small, [m(16), m(46), m(96)]);
}

#[test]
fn layers_keep_their_constants() {
    let internal = Poseidon2InternalLayerMersenne31::new_from_constants(vec![m(1), m(2)]);
    assert_eq!(internal.internal_constants, vec![m(1), m(2)]);
    let constants = ExternalLayerConstants::<2> { initial: vec![[m(1), m(2)]], terminal: vec![[m(3), m(4)]] };
    let external = Poseidon2ExternalLayerMersenne31::new_from_constants(constants.clone());
    assert_eq!(external.external_constants.initial, constants.initial);
    assert_eq!(external.external_constants.terminal, constants.terminal);
}

#[test]
fn naive_mds_multiplies_by_the_matrix() {
    let mds = NaiveMds::new([[m(1), m(2)], [m(3), m(4)]]);
    assert_eq!(mds.permute([m(10), m(100)]), [m(210), m(430)]);
    let mut x = [m(1), m(1)];
    mds.permute_mut(&mut x);
    assert_eq!(x, [m(3), m(7)]);

    let circ = NaiveMds::from_circ_and_diag([m(1), m(2), m(3)], [m(10), m(20), m(30)]);
    assert_eq!(circ.matrix, [[m(11), m(2), m(3)], [m(3), m(21), m(2)], [m(2), m(3), m(31)]]);
}

#[test]
fn baby_bear_extension_mds_is_the_circulant_matrix() {
    let e = |v: u64| BabyBearExt4::from_u64(v);
    let mut input = [BabyBearExt4::zero(); 16];
    input[0] = e(1);
    let out = MdsMatrixBabyBearExtension.permute(input);
    // The first column of the circulant matrix is its first row read backwards.
    for i in 0..16 {
        assert_eq!(out[i], e(MATRIX_CIRC_MDS_16_BABYBEAR[(16 - i) % 16]));
    }
    input[0] = BabyBearExt4 { c0: BabyBear::zero(), c1: BabyBear::one(), c2: BabyBear::zero(), c3: BabyBear::zero() };
    input[3] = e(2);
    let mut in_place = input;
    MdsMatrixBabyBearExtension.permute_mut(&mut in_place);
    assert_eq!(in_place, MdsMatrixBabyBearExtension.permute(input));
    let x = BabyBearExt4 { c0: BabyBear::zero(), c1: BabyBear::one(), c2: BabyBear::zero(), c3: BabyBear::zero() };
    // X^4 = 11
    assert_eq!(x.times(x).times(x).times(x), e(11));
    assert_eq!(x.plus(x.negate()), BabyBearExt4::zero());
    assert_eq!(x.minus(x), BabyBearExt4::zero());
    assert!(x.same(x.reduce()));
    assert_eq!(BabyBearExt4::one().times(x), x);
}

#[test]
fn round_numbers_are_those_of_the_table() {
    let m31 = (1u64 << 31) - 1;
    let baby_bear = (1u64 << 31) - (1 << 27) + 1;
    let goldilocks = 0xFFFF_FFFF_0000_0001u64;
    assert_eq!(poseidon_round_numbers_128(m31, 16, 5), (8, 14));
    assert_eq!(poseidon_round_numbers_128(baby_bear, 16, 7), (8, 13));
    assert_eq!(poseidon_round_numbers_128(baby_bear, 24, 3), (8, 23));
    assert_eq!(poseidon_round_numbers_128(baby_bear, 24, 11), (8, 21));
    assert_eq!(poseidon_round_numbers_128(goldilocks, 12, 7), (8, 22));
    assert_eq!(poseidon_round_numbers_128(goldilocks, 8, 11), (8, 17));
    assert_eq!(poseidon_round_numbers_128(goldilocks, 16, 11), (8, 18));
    assert_eq!(try_poseidon_round_numbers_128(goldilocks, 24, 7), None);
    assert_eq!(try_poseidon_round_numbers_128(m31, 8, 7), None);
    assert_eq!(try_poseidon_round_numbers_128(97, 16, 7), None);
    assert_eq!(try_poseidon_round_numbers_128(m31, 16, 3), Some((8, 20)));
}

#[test]
fn permuted_matrix_shows_the_rows_in_circle_bit_reversed_order() {
    let inner = RowMajorMatrix::new((0..16).collect::<Vec<u32>>(), 2);
    let view = PermutedMatrix::<CircleBitrevPermutation, u32>::new(inner);
    assert_eq!(view.width(), 2);
    assert_eq!(view.height(), 8);
    let order = [0usize, 7, 3, 4, 1, 6, 2, 5];
    for r in 0..8 {
        assert_eq!(CircleBitrevPermutation::permute_index(r, 8), order[r]);
        assert_eq!(view.row(r), vec![2 * order[r] as u32, 2 * order[r] as u32 + 1]);
        assert_eq!(view.row_slice(r), view.row(r));
        assert_eq!(view.get(r, 1), 2 * order[r] as u32 + 1);
    }
    let written = view.to_row_major_matrix();
    assert_eq!(written.row(1), vec![14, 15]);
    assert_eq!(written.height(), 8);
}

#[test]
fn constraint_consumers_collect_and_filter() {
    let mut collector = ConstraintCollector { constraints: vec![] };
    collector.global(m(7));
    let mut filtered = collector.when(m(3));
    filtered.global(m(5));
    let mut twice = filtered.when(m(2));
    twice.global(m(1));
    let collector = twice.into_inner().into_inner();
    assert_eq!(collector.constraints, vec![m(7), m(15), m(6)]);
}

const WIDTH: usize = 2;
const ALPHA: u64 = 3;
const N_ROUNDS: usize = 4;

fn air() -> PoseidonAir<NaiveMds<M31, WIDTH>, WIDTH, ALPHA, N_ROUNDS> {
    let mds = NaiveMds::new([[m(2), m(1)], [m(1), m(3)]]);
    PoseidonAir::new(1, 2, (1..9).collect(), mds)
}

#[test]
fn trace_rows_hold_the_rounds() {
    let air = air();
    assert_eq!(air.width(), 13);
    assert_eq!(get_num_poseidon_cols(WIDTH, N_ROUNDS), 13);
    let trace = generate_trace_rows::<M31, WIDTH, ALPHA, N_ROUNDS, _>(
        vec![[10, 20]],
        air.half_num_full_rounds,
        air.num_partial_rounds,
        air.round_constants.clone(),
        &air.mds,
    );
    assert_eq!(trace.width(), 13);
    assert_eq!(trace.height(), 4);

    // Round 0 is a full round on the input, with the constants 1 and 2.
    let row0: PoseidonCols<M31, WIDTH, N_ROUNDS> = PoseidonCols::borrow(&trace.row(0));
    assert_eq!(row0.round_flags, [m(1), m(0), m(0), m(0)]);
    assert_eq!(row0.partial_round, m(0));
    assert_eq!(row0.start_of_round, [m(10), m(20)]);
    assert_eq!(row0.after_constants, [m(11), m(22)]);
    assert_eq!(row0.after_sbox, [m(1331), m(10648)]);
    assert_eq!(row0.after_mds, [m(2 * 1331 + 10648), m(1331 + 3 * 10648)]);
    assert_eq!(row0.borrow_mut(), trace.row(0));

    // Round 1 is a partial round on zeros, with the constants 3 and 4.
    let row1: PoseidonCols<M31, WIDTH, N_ROUNDS> = PoseidonCols::borrow(&trace.row(1));
    assert_eq!(row1.round_flags, [m(0), m(1), m(0), m(0)]);
    assert_eq!(row1.partial_round, m(1));
    assert_eq!(row1.start_of_round, [m(0), m(0)]);
    assert_eq!(row1.after_constants, [m(3), m(4)]);
    assert_eq!(row1.after_sbox, [m(27), m(0)]);
    assert_eq!(row1.after_mds, [m(54), m(27)]);

    let row3: PoseidonCols<M31, WIDTH, N_ROUNDS> = PoseidonCols::borrow(&trace.row(3));
    assert_eq!(row3.partial_round, m(0));
    assert_eq!(row3.after_sbox, [pow(m(7), 3), pow(m(8), 3)]);

    let empty = generate_trace_rows::<M31, WIDTH, ALPHA, N_ROUNDS, _>(
        vec![],
        1,
        2,
        air.round_constants.clone(),
        &air.mds,
    );
    assert_eq!(empty.height(), 1);
}

#[test]
fn constraints_vanish_on_a_row_that_follows_the_rules() {
    let air = air();
    // A full round with flag 0: the row of the trace satisfies every
    // constraint but the link to the next row, which the trace of
    // unrelated rounds does not keep.
    let trace = generate_trace_rows::<M31, WIDTH, ALPHA, N_ROUNDS, _>(
        vec![[10, 20]],
        1,
        2,
        air.round_constants.clone(),
        &air.mds,
    );
    let local: PoseidonCols<M31, WIDTH, N_ROUNDS> = PoseidonCols::borrow(&trace.row(0));
    let mut next: PoseidonCols<M31, WIDTH, N_ROUNDS> = PoseidonCols::borrow(&trace.row(1));
    next.start_of_round = local.after_mds;

    let mut consumer = ConstraintCollector { constraints: vec![] };
    air.eval(&local, &next, m(1), m(1), &mut consumer);
    assert_eq!(consumer.constraints.len(), 2 * N_ROUNDS + 4 * WIDTH + 2);
    assert!(consumer.constraints.iter().all(|c| *c == m(0)));
    assert_eq!(air.constraints(&local, &next).len(), 4 * WIDTH + 2);

    // A wrong state after the S-box breaks the S-box and the linear layer.
    let mut wrong = local;
    wrong.after_sbox[1] = wrong.after_sbox[1].plus(m(1));
    let broken = air.constraints(&wrong, &next);
    let nonzero: Vec<usize> = (0..broken.len()).filter(|&k| broken[k] != m(0)).collect();
    assert_eq!(nonzero, vec![5, 6, 7]);

    // On the first row the first flag must be one.
    let mut consumer = ConstraintCollector { constraints: vec![] };
    eval_round_flags(&next, &local, m(1), m(0), &mut consumer);
    assert_eq!(consumer.constraints[0], m(0).minus(m(1)));
    assert_eq!(consumer.constraints[1], m(1));
}

fn values(seed: u64, n: usize, modulus: u64) -> Vec<u32> {
    let mut s = seed;
    (0..n)
        .map(|_| {
            s = s.wrapping_mul(6364136223846793005).wrapping_add(1442695040888963407);
            ((s >> 33) % modulus) as u32
        })
        .collect()
}

fn outside_external<const WIDTH: usize>(xs: &[u32], hl: bool) -> Vec<u32> {
    let mut state = [p3_mersenne_31::Mersenne31::ZERO; WIDTH];
    for i in 0..WIDTH {
        state[i] = p3_mersenne_31::Mersenne31::new(xs[i]);
    }
    if hl {
        p3_poseidon2::mds_light_permutation(&mut state, &p3_poseidon2::HLMDSMat4);
    } else {
        p3_poseidon2::mds_light_permutation(&mut state, &p3_poseidon2::MDSMat4);
    }
    state.iter().map(|x| x.as_canonical_u32()).collect()
}

fn inside_external<const WIDTH: usize>(xs: &[u32], hl: bool) -> Vec<u32> {
    let mut state = [m(0); WIDTH];
    for i in 0..WIDTH {
        state[i] = m(xs[i]);
    }
    if hl {
        Poseidon2ExternalMatrix::new(HLMDSMat4).permute_mut(&mut state);
    } else {
        Poseidon2ExternalMatrix::new(MDSMat4).permute_mut(&mut state);
    }
    state.iter().map(|x| x.as_canonical_u32()).collect()
}

#[test]
fn external_matrix_agrees_with_the_poseidon2_crate() {
    let xs = values(41, 24, (1 << 31) - 1);
    for hl in [false, true] {
        assert_eq!(inside_external::<2>(&xs, hl), outside_external::<2>(&xs, hl));
        assert_eq!(inside_external::<3>(&xs, hl), outside_external::<3>(&xs, hl));
        assert_eq!(inside_external::<4>(&xs, hl), outside_external::<4>(&xs, hl));
        assert_eq!(inside_external::<8>(&xs, hl), outside_external::<8>(&xs, hl));
        assert_eq!(inside_external::<12>(&xs, hl), outside_external::<12>(&xs, hl));
        assert_eq!(inside_external::<16>(&xs, hl), outside_external::<16>(&xs, hl));
        assert_eq!(inside_external::<20>(&xs, hl), outside_external::<20>(&xs, hl));
        assert_eq!(inside_external::<24>(&xs, hl), outside_external::<24>(&xs, hl));
    }
}

#[test]
fn internal_matrix_agrees_with_the_poseidon2_crate() {
    let xs = values(42, 16, (1 << 31) - 1);
    let mut inside = [m(0); 16];
    let mut outside = [p3_mersenne_31::Mersenne31::ZERO; 16];
    for i in 0..16 {
        inside[i] = m(xs[i]);
        outside[i] = p3_mersenne_31::Mersenne31::new(xs[i]);
    }
    DiffusionMatrixMersenne31.permute_mut(&mut inside);
    p3_poseidon2::matmul_internal::<p3_mersenne_31::Mersenne31, p3_mersenne_31::Mersenne31, 16>(
        &mut outside,
        MATRIX_DIAG_16_MERSENNE31_U32.map(p3_mersenne_31::Mersenne31::new),
    );
    for i in 0..16 {
        assert_eq!(inside[i].as_canonical_u32(), outside[i].as_canonical_u32());
    }
}

#[test]
fn circulant_matrix_agrees_with_the_mds_crate() {
    let xs = values(43, 64, 0x7800_0001);
    let mut input = [BabyBearExt4::zero(); 16];
    let mut columns = [[p3_baby_bear::BabyBear::ZERO; 16]; 4];
    for i in 0..16 {
        input[i] = BabyBearExt4 {
            c0: BabyBear::from_canonical_u32(xs[4 * i]),
            c1: BabyBear::from_canonical_u32(xs[4 * i + 1]),
            c2: BabyBear::from_canonical_u32(xs[4 * i + 2]),
            c3: BabyBear::from_canonical_u32(xs[4 * i + 3]),
        };
        for k in 0..4 {
            columns[k][i] = p3_baby_bear::BabyBear::new(xs[4 * i + k]);
        }
    }
    let out = MdsMatrixBabyBearExtension.permute(input);
    for k in 0..4 {
        let expected = p3_mds::util::apply_circulant(&MATRIX_CIRC_MDS_16_BABYBEAR, &columns[k]);
        for i in 0..16 {
            let got = [out[i].c0, out[i].c1, out[i].c2, out[i].c3][k];
            assert_eq!(got.as_canonical_u32(), expected[i].as_canonical_u32());
        }
    }
}
