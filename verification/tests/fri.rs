use circle_pcs::challenger::Challenger;
use circle_pcs::complex::Complex;
use circle_pcs::domain::CircleDomain;
use circle_pcs::extension::{Ext3, M31Algebra};
use circle_pcs::extension_mmcs::{BaseMmcs, Commitment, ExtensionMmcs};
use circle_pcs::field::{inverse_or_zero, Field, Ring};
use circle_pcs::folding::{circle_bitrev_idx, circle_bitrev_permute, fold_bivariate, fold_univariate};
use circle_pcs::fri::{
    answer_query, check_openings_shape, check_proof_shape, commit_phase, constant_value,
    draw_indices, fold_row, prove, verify, verify_challenges, verify_shape_and_sample_challenges,
    CircleFriFolder, FriChallenges, FriConfig, FriError, FriFolder, FriProof,
};
use circle_pcs::matrix::RowMajorMatrix;
use circle_pcs::mersenne31::M31;
use circle_pcs::pcs::reduced_query_openings;

const P: u64 = (1 << 31) - 1;

struct Lcg(u64);

impl Lcg {
    fn next_m31(&mut self) -> M31 {
        self.0 = self.0.wrapping_mul(6364136223846793005).wrapping_add(1442695040888963407);
        M31::new(((self.0 >> 33) % P) as u32)
    }

    fn next_ext(&mut self) -> Ext3 {
        Ext3::new(self.next_m31(), self.next_m31(), self.next_m31())
    }
}

fn double_x(x: M31) -> M31 {
    x.times(x).plus(x.times(x)).minus(M31::one())
}

fn basis_eval(k: usize, log_n: usize, pt: Complex<M31>) -> M31 {
    let mut r = M31::one();
    if k & 1 == 1 {
        r = r.times(pt.im);
    }
    let mut x = pt.re;
    for i in 0..log_n.saturating_sub(1) {
        if (k >> (i + 1)) & 1 == 1 {
            r = r.times(x);
        }
        x = double_x(x);
    }
    r
}

fn eval_poly(coeffs: &[M31], log_n: usize, pt: Complex<M31>) -> M31 {
    let mut acc = M31::zero();
    for (k, c) in coeffs.iter().enumerate() {
        acc = acc.plus(c.times(basis_eval(k, log_n, pt)));
    }
    acc
}

fn low_degree_evals(rng: &mut Lcg, log_n: usize, log_blowup: usize) -> Vec<Ext3> {
    let coeffs: Vec<Vec<M31>> =
        (0..3).map(|_| (0..1usize << log_n).map(|_| rng.next_m31()).collect()).collect();
    CircleDomain::standard(log_n + log_blowup)
        .points()
        .into_iter()
        .map(|p| {
            Ext3::new(
                eval_poly(&coeffs[0], log_n, p),
                eval_poly(&coeffs[1], log_n, p),
                eval_poly(&coeffs[2], log_n, p),
            )
        })
        .collect()
}

fn config(log_blowup: usize, num_queries: usize, proof_of_work_bits: usize) -> FriConfig<ExtensionMmcs<BaseMmcs>> {
    FriConfig { log_blowup, num_queries, proof_of_work_bits, mmcs: ExtensionMmcs::new(BaseMmcs) }
}

// The input of the low-degree test for one polynomial: its extension in
// circle bit-reversed order, folded once.
fn fri_input(rng: &mut Lcg, log_n: usize, log_blowup: usize) -> Vec<Option<Vec<Ext3>>> {
    let evals = low_degree_evals(rng, log_n, log_blowup);
    let folded = fold_bivariate(&RowMajorMatrix::new(circle_bitrev_permute(&evals), 2), rng.next_ext());
    let mut input: Vec<Option<Vec<Ext3>>> = vec![None; log_n + log_blowup];
    input[log_n + log_blowup - 1] = Some(folded);
    input
}

fn prove_and_verify(log_n: usize, log_blowup: usize, num_queries: usize) {
    let mut rng = Lcg(1000 + (log_n * 100 + log_blowup * 10 + num_queries) as u64);
    let cfg = config(log_blowup, num_queries, 2);
    let input = fri_input(&mut rng, log_n, log_blowup);
    let log_max_height = log_n + log_blowup - 1;

    let mut challenger = Challenger::new(&vec![]);
    let (proof, indices) = prove(&cfg, &input, &mut challenger).unwrap();
    assert_eq!(indices.len(), num_queries);
    assert_eq!(proof.query_proofs.len(), num_queries);
    assert_eq!(proof.commit_phase_commits.len(), log_max_height - log_blowup);
    for q in &proof.query_proofs {
        assert_eq!(q.commit_phase_openings.len(), log_max_height - log_blowup);
    }
    for &i in &indices {
        assert!(i < 1 << log_max_height);
    }

    let reduced = reduced_query_openings(&input, &indices, log_max_height);
    let mut challenger = Challenger::new(&vec![]);
    assert_eq!(verify(&cfg, &proof, &mut challenger, &reduced), Ok(()));
}

#[test]
fn test_circle_fold() {
    let mut rng = Lcg(3);
    let log_n = 4;
    let rate_bits = 1;
    let mut evals = low_degree_evals(&mut rng, log_n, rate_bits);

    // Folds in natural order: entry `i` with entry `n - 1 - i`, by the
    // inverse of the second coordinate on the first layer and of the
    // first coordinate on the later ones.
    let mut layer = 0;
    while evals.len() > 1 << rate_bits {
        let beta = rng.next_ext();
        let n = evals.len();
        let half_n = n >> 1;
        assert!(half_n != 0);
        let points = CircleDomain::standard(log_n + rate_bits - layer + usize::from(layer > 0)).points();
        for i in 0..half_n {
            let t = if layer == 0 { points[i].im } else { points[i].re };
            let t = inverse_or_zero(t);
            let lo = evals[i];
            let hi = evals[n - i - 1];
            let sum = lo.plus(hi);
            let diff = lo.minus(hi).times(Ext3::embed(t));
            evals[i] = sum.plus(beta.times(diff)).halve();
        }
        evals.truncate(half_n);
        layer += 1;
    }
    assert_eq!(evals, vec![evals[0]; evals.len()]);
}

#[test]
fn test_circle_fri() {
    let mut rng = Lcg(32);
    let fri_config = config(1, 1, 0);
    let log_n = 3;
    let inputs = fri_input(&mut rng, log_n, fri_config.log_blowup);
    let mut challenger = Challenger::new(&vec![]);
    let (proof, indices) = prove(&fri_config, &inputs, &mut challenger).unwrap();
    assert_eq!(indices.len(), 1);
    assert_eq!(proof.commit_phase_commits.len(), 2);
}

#[test]
fn completeness_blowup_0_queries_1() {
    prove_and_verify(3, 0, 1);
}

#[test]
fn completeness_blowup_0_queries_8() {
    prove_and_verify(4, 0, 8);
}

#[test]
fn completeness_blowup_0_queries_64() {
    prove_and_verify(3, 0, 64);
}

#[test]
fn completeness_blowup_1_queries_1() {
    prove_and_verify(3, 1, 1);
}

#[test]
fn completeness_blowup_1_queries_8() {
    prove_and_verify(4, 1, 8);
}

#[test]
fn completeness_blowup_1_queries_64() {
    prove_and_verify(3, 1, 64);
}

#[test]
fn completeness_blowup_2_queries_1() {
    prove_and_verify(3, 2, 1);
}

#[test]
fn completeness_blowup_2_queries_8() {
    prove_and_verify(2, 2, 8);
}

#[test]
fn completeness_blowup_2_queries_64() {
    prove_and_verify(3, 2, 64);
}

#[test]
fn prover_gives_up_on_a_vector_that_is_not_low_degree() {
    let mut rng = Lcg(77);
    let cfg = config(1, 8, 0);
    let mut input = fri_input(&mut rng, 3, 1);
    let v = input[3].as_mut().unwrap();
    v[5] = v[5].plus(Ext3::one());
    let mut challenger = Challenger::new(&vec![]);
    assert_eq!(prove(&cfg, &input, &mut challenger).err(), Some(FriError::MalformedWitness));
}

#[test]
fn prover_turns_down_inputs_of_the_wrong_shape() {
    let cfg = config(1, 8, 0);
    let mut challenger = Challenger::new(&vec![]);
    let none: Vec<Option<Vec<Ext3>>> = vec![None; 4];
    assert_eq!(prove(&cfg, &none, &mut challenger).err(), Some(FriError::MalformedInput));
    let wrong_length = vec![None, None, Some(vec![Ext3::zero(); 3])];
    assert_eq!(prove(&cfg, &wrong_length, &mut challenger).err(), Some(FriError::MalformedInput));
    let too_short = vec![Some(vec![Ext3::zero(); 1])];
    assert_eq!(prove(&cfg, &too_short, &mut challenger).err(), Some(FriError::MalformedInput));
    let mut rng = Lcg(5);
    let too_much_work = config(1, 8, 31);
    assert_eq!(
        prove(&too_much_work, &fri_input(&mut rng, 3, 1), &mut challenger).err(),
        Some(FriError::MalformedInput)
    );
}

fn honest(seed: u64, num_queries: usize, pow_bits: usize) -> (FriConfig<ExtensionMmcs<BaseMmcs>>, Vec<Option<Vec<Ext3>>>, FriProof, Vec<usize>) {
    let mut rng = Lcg(seed);
    let cfg = config(1, num_queries, pow_bits);
    let input = fri_input(&mut rng, 3, 1);
    let mut challenger = Challenger::new(&vec![]);
    let (proof, indices) = prove(&cfg, &input, &mut challenger).unwrap();
    (cfg, input, proof, indices)
}

#[test]
fn verifier_rejects_a_flipped_evaluation() {
    // The verifier holds the values of a vector that differs from the
    // committed one at the first queried index.
    let (cfg, mut input, proof, indices) = honest(11, 16, 0);
    let k = indices[0];
    let v = input[3].as_mut().unwrap();
    v[k] = v[k].plus(Ext3::one());
    let reduced = reduced_query_openings(&input, &indices, 3);
    let mut challenger = Challenger::new(&vec![]);
    let r = verify(&cfg, &proof, &mut challenger, &reduced);
    assert!(r == Err(FriError::OpeningProofInvalid) || r == Err(FriError::InconsistentFold));
}

#[test]
fn verifier_rejects_a_wrong_final_value() {
    let (cfg, input, mut proof, indices) = honest(12, 4, 0);
    proof.final_poly = proof.final_poly.plus(Ext3::one());
    let reduced = reduced_query_openings(&input, &indices, 3);
    let mut challenger = Challenger::new(&vec![]);
    assert_eq!(verify(&cfg, &proof, &mut challenger, &reduced), Err(FriError::InconsistentFold));
}

#[test]
fn verifier_rejects_a_wrong_sibling_and_a_wrong_opening() {
    let (cfg, input, proof, indices) = honest(13, 4, 0);
    let reduced = reduced_query_openings(&input, &indices, 3);

    let (_, _, mut tampered, _) = honest(13, 4, 0);
    let step = &mut tampered.query_proofs[0].commit_phase_openings[0];
    step.sibling_value = step.sibling_value.plus(Ext3::one());
    let mut challenger = Challenger::new(&vec![]);
    assert_eq!(verify(&cfg, &tampered, &mut challenger, &reduced), Err(FriError::OpeningProofInvalid));

    let (_, _, mut tampered, _) = honest(13, 4, 0);
    tampered.query_proofs[1].commit_phase_openings[1].opening_proof[0][7] ^= 1;
    let mut challenger = Challenger::new(&vec![]);
    assert_eq!(verify(&cfg, &tampered, &mut challenger, &reduced), Err(FriError::OpeningProofInvalid));

    let mut challenger = Challenger::new(&vec![]);
    assert_eq!(verify(&cfg, &proof, &mut challenger, &reduced), Ok(()));
}

#[test]
fn verifier_rejects_a_proof_of_the_wrong_shape() {
    let (cfg, input, proof, indices) = honest(14, 4, 0);
    let reduced = reduced_query_openings(&input, &indices, 3);

    let (_, _, mut short, _) = honest(14, 4, 0);
    short.query_proofs.pop();
    let mut challenger = Challenger::new(&vec![]);
    assert_eq!(verify(&cfg, &short, &mut challenger, &reduced), Err(FriError::MalformedInput));

    let (_, _, mut short, _) = honest(14, 4, 0);
    short.query_proofs[2].commit_phase_openings.pop();
    let mut challenger = Challenger::new(&vec![]);
    assert_eq!(verify(&cfg, &short, &mut challenger, &reduced), Err(FriError::MalformedInput));

    let mut fewer = reduced.clone();
    fewer.pop();
    let mut challenger = Challenger::new(&vec![]);
    assert_eq!(verify(&cfg, &proof, &mut challenger, &fewer), Err(FriError::MalformedInput));

    let mut missing = reduced.clone();
    missing[0][3] = None;
    let mut challenger = Challenger::new(&vec![]);
    assert_eq!(verify(&cfg, &proof, &mut challenger, &missing), Err(FriError::MalformedInput));
}

#[test]
fn verifier_rejects_insufficient_work() {
    let (cfg, input, mut proof, indices) = honest(15, 2, 12);
    assert_eq!(proof.pow_witness, proof.pow_witness.reduce());
    let reduced = reduced_query_openings(&input, &indices, 3);
    let mut challenger = Challenger::new(&vec![]);
    assert_eq!(verify(&cfg, &proof, &mut challenger, &reduced), Ok(()));

    // Of the witnesses next to the ground one, one in 4096 passes; all of
    // sixteen passing would be no accident.
    let ground = proof.pow_witness;
    let mut rejected = 0;
    for d in 1..17u32 {
        proof.pow_witness = ground.plus(M31::new(d));
        let mut challenger = Challenger::new(&vec![]);
        if verify(&cfg, &proof, &mut challenger, &reduced) == Err(FriError::InsufficientWork) {
            rejected += 1;
        }
    }
    assert!(rejected >= 15);
}

#[test]
fn verify_challenges_follows_the_given_challenges() {
    let (cfg, input, proof, indices) = honest(16, 4, 0);
    let reduced = reduced_query_openings(&input, &indices, 3);
    // The challenges of another transcript do not fit the layers.
    let challenges =
        FriChallenges { query_indices: indices.clone(), betas: vec![Ext3::one(), Ext3::one()] };
    let r = verify_challenges(&cfg, &proof, &challenges, &reduced);
    assert!(r == Err(FriError::InconsistentFold) || r == Err(FriError::OpeningProofInvalid));
    let too_few = FriChallenges { query_indices: indices, betas: vec![Ext3::one()] };
    assert_eq!(verify_challenges(&cfg, &proof, &too_few, &reduced), Err(FriError::MalformedInput));
}

#[test]
fn commit_phase_and_queries_agree_with_the_layers() {
    let mut rng = Lcg(21);
    let cfg = config(1, 1, 0);
    let input = fri_input(&mut rng, 3, 1);
    let mut challenger = Challenger::new(&vec![]);
    let result = commit_phase(&cfg, &input, 3, &mut challenger).unwrap();
    assert_eq!(result.commits.len(), 2);
    assert_eq!(result.betas.len(), 2);
    for beta in &result.betas {
        assert_eq!(*beta, beta.reduce());
    }
    assert_ne!(result.betas[0], result.betas[1]);

    // The layers, folded again from the challenges that were drawn.
    let layer0 = input[3].clone().unwrap();
    let layer1 = fold_univariate(&RowMajorMatrix::new(layer0.clone(), 2), result.betas[0]);
    let layer2 = fold_univariate(&RowMajorMatrix::new(layer1.clone(), 2), result.betas[1]);
    assert_eq!(constant_value(&layer2), Ok(result.final_poly));
    assert_eq!(layer2.len(), cfg.blowup());

    for index in 0..8usize {
        let q = answer_query(&cfg, &result.data, index, 3);
        assert_eq!(q.commit_phase_openings[0].sibling_value, layer0[index ^ 1]);
        assert_eq!(q.commit_phase_openings[1].sibling_value, layer1[(index >> 1) ^ 1]);
        // One row folded is the entry of the next layer.
        let (lo, hi) = (layer0[index & !1], layer0[index | 1]);
        assert_eq!(fold_row(index >> 1, 2, lo, hi, result.betas[0]), layer1[index >> 1]);
        assert_eq!(CircleFriFolder::fold_row(index >> 1, 2, &[lo, hi], result.betas[0]), layer1[index >> 1]);
    }
    assert_eq!(CircleFriFolder::fold_matrix(&RowMajorMatrix::new(layer0, 2), result.betas[0]), layer1);
}

#[test]
fn folder_combines_entry_by_entry() {
    let folder = CircleFriFolder;
    let mut current = vec![Ext3::one(), Ext3::zero()];
    folder.combine_vec(&mut current, &vec![Ext3::one(), Ext3::one()]);
    assert_eq!(current, vec![Ext3::one().plus(Ext3::one()), Ext3::one()]);
    let mut x = Ext3::one();
    folder.combine_row(&mut x, Ext3::one(), 0, 1);
    assert_eq!(x, Ext3::one().plus(Ext3::one()));
}

#[test]
fn two_vectors_of_different_heights_are_tested_together() {
    let mut rng = Lcg(31);
    let cfg = config(1, 8, 0);
    let mut input = fri_input(&mut rng, 4, 1);
    let shorter = fri_input(&mut rng, 3, 1);
    input[3] = shorter[3].clone();
    let mut challenger = Challenger::new(&vec![]);
    let (proof, indices) = prove(&cfg, &input, &mut challenger).unwrap();
    let reduced = reduced_query_openings(&input, &indices, 4);
    let mut challenger = Challenger::new(&vec![]);
    assert_eq!(verify(&cfg, &proof, &mut challenger, &reduced), Ok(()));
}

#[test]
fn blowup_is_a_power_of_two() {
    assert_eq!(config(0, 1, 0).blowup(), 1);
    assert_eq!(config(3, 1, 0).blowup(), 8);
    assert_eq!(circle_bitrev_idx(0, 0), 0);
}

// What a transcript gives next, seen through a proof that is made on it.
fn next_of(challenger: &mut Challenger) -> (Vec<Commitment>, Vec<usize>) {
    let mut rng = Lcg(900);
    let cfg = config(1, 16, 0);
    let (proof, indices) = prove(&cfg, &fri_input(&mut rng, 3, 1), challenger).unwrap();
    (proof.commit_phase_commits, indices)
}

#[test]
fn prover_leaves_the_transcript_untouched_for_an_input_without_a_vector() {
    let cfg = config(1, 8, 0);
    let mut challenger = Challenger::new(&vec![]);
    let none: Vec<Option<Vec<Ext3>>> = vec![None; 4];
    assert_eq!(prove(&cfg, &none, &mut challenger).err(), Some(FriError::MalformedInput));
    assert_eq!(next_of(&mut challenger), next_of(&mut Challenger::new(&vec![])));
}

#[test]
fn verifier_leaves_the_transcript_as_the_prover_left_it() {
    let mut rng = Lcg(31);
    let cfg = config(1, 8, 3);
    let input = fri_input(&mut rng, 3, 1);
    let mut proving = Challenger::new(&vec![]);
    let (proof, indices) = prove(&cfg, &input, &mut proving).unwrap();
    let reduced = reduced_query_openings(&input, &indices, 3);
    let mut verifying = Challenger::new(&vec![]);
    assert_eq!(verify(&cfg, &proof, &mut verifying, &reduced), Ok(()));
    let after_proving = next_of(&mut proving);
    assert_eq!(after_proving, next_of(&mut verifying));
    // The transcript has moved on.
    assert_ne!(after_proving.1, next_of(&mut Challenger::new(&vec![])).1);
}

#[test]
fn verifier_leaves_the_transcript_untouched_for_a_proof_of_the_wrong_shape() {
    let (cfg, input, mut proof, indices) = honest(32, 4, 0);
    let reduced = reduced_query_openings(&input, &indices, 3);
    let mut challenger = Challenger::new(&vec![]);
    let mut missing = reduced.clone();
    missing[2][3] = None;
    assert_eq!(verify(&cfg, &proof, &mut challenger, &missing), Err(FriError::MalformedInput));
    let mut short = reduced.clone();
    short[1].pop();
    assert_eq!(verify(&cfg, &proof, &mut challenger, &short), Err(FriError::MalformedInput));
    assert!(check_openings_shape(cfg.log_blowup, &proof, &reduced));
    assert!(!check_openings_shape(cfg.log_blowup, &proof, &missing));
    assert!(!check_openings_shape(cfg.log_blowup, &proof, &short));
    proof.query_proofs.pop();
    assert!(!check_proof_shape(&cfg, &proof));
    assert_eq!(verify(&cfg, &proof, &mut challenger, &reduced), Err(FriError::MalformedInput));
    assert_eq!(next_of(&mut challenger), next_of(&mut Challenger::new(&vec![])));
}

#[test]
fn a_malformed_proof_is_malformed_whatever_its_witness() {
    // The shape is looked at before the witness is.
    let (cfg, input, mut proof, indices) = honest(34, 2, 12);
    let mut reduced = reduced_query_openings(&input, &indices, 3);
    proof.pow_witness = proof.pow_witness.plus(M31::new(1));
    let mut challenger = Challenger::new(&vec![]);
    assert_eq!(verify(&cfg, &proof, &mut challenger, &reduced), Err(FriError::InsufficientWork));
    reduced[1][3] = None;
    let mut challenger = Challenger::new(&vec![]);
    assert_eq!(verify(&cfg, &proof, &mut challenger, &reduced), Err(FriError::MalformedInput));
}

#[test]
fn verifier_draws_the_challenges_that_the_prover_drew() {
    let mut rng = Lcg(33);
    let cfg = config(1, 8, 2);
    let input = fri_input(&mut rng, 3, 1);
    let mut challenger = Challenger::new(&vec![]);
    let result = commit_phase(&cfg, &input, 3, &mut challenger).unwrap();
    let mut challenger = Challenger::new(&vec![]);
    let (proof, indices) = prove(&cfg, &input, &mut challenger).unwrap();
    assert_eq!(proof.commit_phase_commits, result.commits);
    let mut challenger = Challenger::new(&vec![]);
    let challenges = verify_shape_and_sample_challenges(&cfg, &proof, &mut challenger).unwrap();
    assert_eq!(challenges.betas, result.betas);
    assert_eq!(challenges.query_indices, indices);
}

#[test]
fn nothing_to_fold_leaves_the_transcript_untouched() {
    let cfg = config(3, 1, 0);
    let value = Ext3::new(M31::new(5), M31::new(6), M31::new(7));
    let mut input: Vec<Option<Vec<Ext3>>> = vec![None; 4];
    input[3] = Some(vec![value; 8]);
    let mut challenger = Challenger::new(&vec![]);
    let result = commit_phase(&cfg, &input, 3, &mut challenger).unwrap();
    assert_eq!(result.commits.len(), 0);
    assert_eq!(result.betas.len(), 0);
    assert_eq!(result.final_poly, value);
    assert_eq!(next_of(&mut challenger), next_of(&mut Challenger::new(&vec![])));

    input[3].as_mut().unwrap()[2] = Ext3::one();
    let mut challenger = Challenger::new(&vec![]);
    assert_eq!(commit_phase(&cfg, &input, 3, &mut challenger).err(), Some(FriError::MalformedWitness));
    assert_eq!(next_of(&mut challenger), next_of(&mut Challenger::new(&vec![])));
}

#[test]
fn indices_are_drawn_one_after_another() {
    let mut a = Challenger::new(&vec![]);
    let drawn = draw_indices(&mut a, 10, 12);
    assert_eq!(drawn.len(), 12);
    assert!(drawn.iter().all(|&i| i < 1 << 10));
    let mut b = Challenger::new(&vec![]);
    let mut one_by_one = draw_indices(&mut b, 10, 5);
    one_by_one.extend(draw_indices(&mut b, 10, 7));
    assert_eq!(drawn, one_by_one);
    assert_eq!(draw_indices(&mut a, 10, 0), Vec::<usize>::new());
    assert_eq!(next_of(&mut a), next_of(&mut b));
}
