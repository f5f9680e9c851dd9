use circle_pcs::cfft::{open_mat_at_point, Cfft};
use circle_pcs::challenger::Challenger;
use circle_pcs::complex::Complex;
use circle_pcs::deep_quotient::{
    deep_quotient, extract_lambda, frob_line, pair_vanishing, reduce_matrix,
};
use circle_pcs::domain::{univariate_to_point, CircleDomain};
use circle_pcs::extension::{Ext3, M31Algebra};
use circle_pcs::extension_mmcs::{BaseMmcs, Commitment, ExtensionMmcs};
use circle_pcs::field::{pow, Field, Ring};
use circle_pcs::folding::{circle_bitrev_permute, fold_bivariate, fold_univariate};
use circle_pcs::fri::{FriConfig, FriError};
use circle_pcs::matrix::RowMajorMatrix;
use circle_pcs::mersenne31::M31;
use circle_pcs::opening::open_at;
use circle_pcs::pcs::{fri_input_for_height, CirclePcs, PcsProof, ProverData};

const P: u64 = (1 << 31) - 1;

struct Lcg(u64);

impl Lcg {
    fn next_m31(&mut self) -> M31 {
        self.0 = self.0.wrapping_mul(6364136223846793005).wrapping_add(1442695040888963407);
        M31::new(((self.0 >> 33) % P) as u32)
    }

    fn next_ext(&mut self) -> Ext3 {
        Ext3::new(self.next_m31(), self.next_m31(), self.next_m31())
    }
}

fn double_x<F: Ring>(x: F) -> F {
    x.times(x).plus(x.times(x)).minus(F::one())
}

// Basis function `k` of the polynomials of a domain of `2^log_n` points,
// at a point over any field.
fn basis_eval<F: Ring>(k: usize, log_n: usize, pt: Complex<F>) -> F {
    let mut r = F::one();
    if k & 1 == 1 {
        r = r.times(pt.im);
    }
    let mut x = pt.re;
    for i in 0..log_n.saturating_sub(1) {
        if (k >> (i + 1)) & 1 == 1 {
            r = r.times(x);
        }
        x = double_x(x);
    }
    r
}

fn eval_poly<F: M31Algebra>(coeffs: &[M31], log_n: usize, pt: Complex<F>) -> F {
    let mut acc = F::zero();
    for (k, c) in coeffs.iter().enumerate() {
        acc = acc.plus(F::embed(*c).times(basis_eval(k, log_n, pt)));
    }
    acc
}

// The values on the standard domain of `2^log_n` points of `width`
// polynomials with the given coefficients, one polynomial per column.
fn evaluate(coeffs: &[Vec<M31>], log_n: usize, domain: CircleDomain) -> RowMajorMatrix<M31> {
    let mut values = vec![];
    for p in domain.points() {
        for c in coeffs {
            values.push(eval_poly::<M31>(c, log_n, p));
        }
    }
    RowMajorMatrix::new(values, coeffs.len())
}

fn random_coeffs(rng: &mut Lcg, log_n: usize, width: usize) -> Vec<Vec<M31>> {
    (0..width).map(|_| (0..1usize << log_n).map(|_| rng.next_m31()).collect()).collect()
}

fn pcs(log_blowup: usize, num_queries: usize) -> CirclePcs {
    CirclePcs {
        log_blowup,
        cfft: Cfft,
        mmcs: BaseMmcs,
        fri_config: FriConfig {
            log_blowup,
            num_queries,
            proof_of_work_bits: 1,
            mmcs: ExtensionMmcs::new(BaseMmcs),
        },
    }
}

fn is_low_degree(column: &[M31], log_n: usize, log_blowup: usize) -> bool {
    let mut rng = Lcg(99);
    let mut evals: Vec<Ext3> = column.iter().map(|&x| Ext3::embed(x)).collect();
    evals = circle_bitrev_permute(&evals);
    evals = fold_bivariate(&RowMajorMatrix::new(evals, 2), rng.next_ext());
    for _ in log_blowup..(log_n + log_blowup - 1) {
        evals = fold_univariate(&RowMajorMatrix::new(evals, 2), rng.next_ext());
    }
    evals.iter().all(|e| *e == evals[0])
}

#[test]
fn test_quotienting() {
    let mut rng = Lcg(2);
    let log_n = 2;
    let trace_domain = CircleDomain::standard(log_n);
    let lde_domain = CircleDomain::standard(log_n + 1);

    let coeffs = random_coeffs(&mut rng, log_n, 1);
    let trace = evaluate(&coeffs, log_n, trace_domain);
    let lde = Cfft.lde(&trace, trace_domain, lde_domain).unwrap();
    let zeta = rng.next_ext();
    let zeta_pt = univariate_to_point(zeta).unwrap();
    let trace_at_zeta = open_mat_at_point(trace_domain, &trace, zeta_pt).unwrap();
    assert_eq!(trace_at_zeta, open_mat_at_point(lde_domain, &lde, zeta_pt).unwrap());

    assert!(is_low_degree(&lde.values, log_n, 1));

    let mu = rng.next_ext();
    let q_vec = reduce_matrix(lde_domain, &lde, zeta_pt, &trace_at_zeta, mu).unwrap();
    assert_eq!(q_vec.len(), 8);
    let mut q_corr = RowMajorMatrix::new_col(q_vec.clone());
    let lambdas = extract_lambda(lde_domain, &mut q_corr, 1).unwrap();
    assert_eq!(lambdas.len(), 1);

    // What is left after the correction folds down to a constant.
    let folded = fri_input_for_height(&q_vec, 3, 1, rng.next_ext()).unwrap();
    let mut evals = folded;
    while evals.len() > 2 {
        evals = fold_univariate(&RowMajorMatrix::new(evals, 2), rng.next_ext());
    }
    assert_eq!(evals[0], evals[1]);
}

#[test]
fn low_degree_extension_is_evaluation() {
    let mut rng = Lcg(3);
    for (log_n, log_blowup) in [(1usize, 1usize), (2, 1), (3, 1), (3, 2), (2, 0)] {
        let coeffs = random_coeffs(&mut rng, log_n, 2);
        let source = CircleDomain::standard(log_n);
        let target = CircleDomain::standard(log_n + log_blowup);
        let evals = evaluate(&coeffs, log_n, source);
        let lde = Cfft.lde(&evals, source, target).unwrap();
        assert_eq!(lde, evaluate(&coeffs, log_n, target));
    }
}

#[test]
fn low_degree_extension_onto_a_domain_that_shares_points_is_not_defined() {
    let mut rng = Lcg(4);
    let coeffs = random_coeffs(&mut rng, 2, 1);
    let source = CircleDomain::standard(2);
    let evals = evaluate(&coeffs, 2, source);
    // The same points, counted from another shift.
    let turned = CircleDomain::new(2, source.point(2));
    assert_eq!(Cfft.lde(&evals, source, turned), None);
}

#[test]
fn lagrange_claim_is_the_polynomial_at_the_point() {
    // A domain of eight points, one column, opened at a pseudorandom
    // point over the extension.
    let mut rng = Lcg(5);
    let log_n = 3;
    let coeffs = random_coeffs(&mut rng, log_n, 1);
    let domain = CircleDomain::standard(log_n);
    let evals = evaluate(&coeffs, log_n, domain);

    let pcs = pcs(1, 4);
    let (_, data) = pcs.commit(vec![(domain, evals.clone())]).unwrap();
    let zeta = rng.next_ext();
    let mut challenger = Challenger::new(&vec![]);
    let (values, _) = pcs.open(vec![(&data, vec![vec![zeta]])], &mut challenger).unwrap();

    let zeta_point = univariate_to_point(zeta).unwrap();
    let expected = eval_poly::<Ext3>(&coeffs[0], log_n, zeta_point);
    assert_eq!(values, vec![vec![vec![vec![expected]]]]);
    assert_eq!(open_at(domain, &evals, zeta), Some(vec![expected]));
}

#[test]
fn claims_do_not_depend_on_the_batching_challenge() {
    let mut rng = Lcg(6);
    let coeffs = random_coeffs(&mut rng, 3, 2);
    let domain = CircleDomain::standard(3);
    let pcs = pcs(1, 4);
    let (_, data) = pcs.commit(vec![(domain, evaluate(&coeffs, 3, domain))]).unwrap();
    let zeta = rng.next_ext();
    let rounds = vec![(&data, vec![vec![zeta]])];

    let (values_a, states_a) = pcs.open_rounds(&rounds, rng.next_ext()).unwrap();
    let (values_b, states_b) = pcs.open_rounds(&rounds, rng.next_ext()).unwrap();
    assert_eq!(values_a, values_b);
    assert!(states_a[4].present && states_b[4].present);
    assert_ne!(states_a[4].acc.values, states_b[4].acc.values);
    assert_eq!(states_a[4].acc.num_reduced, 4);
    assert!(!states_a[3].present);
}

fn commit_open_verify(log_blowup: usize, num_queries: usize, shapes: &[(usize, usize, usize)]) {
    let mut rng = Lcg(7 + log_blowup as u64);
    let pcs = pcs(log_blowup, num_queries);
    let mut evaluations = vec![];
    let mut all_coeffs = vec![];
    let mut points = vec![];
    for &(log_n, width, num_points) in shapes {
        let coeffs = random_coeffs(&mut rng, log_n, width);
        let domain = pcs.natural_domain_for_degree(1 << log_n);
        evaluations.push((domain, evaluate(&coeffs, log_n, domain)));
        all_coeffs.push((log_n, coeffs));
        points.push((0..num_points).map(|_| rng.next_ext()).collect::<Vec<_>>());
    }
    let (commit, data) = pcs.commit(evaluations.clone()).unwrap();
    for (i, (domain, _)) in evaluations.iter().enumerate() {
        let committed = CircleDomain::standard(domain.log_n + log_blowup);
        assert_eq!(data.committed_domains[i], committed);
        assert_eq!(
            pcs.get_evaluations_on_domain(&data, i, committed),
            evaluate(&all_coeffs[i].1, all_coeffs[i].0, committed)
        );
    }

    let mut challenger = Challenger::new(&vec![]);
    let (values, proof) = pcs.open(vec![(&data, points.clone())], &mut challenger).unwrap();
    for (m, (log_n, coeffs)) in all_coeffs.iter().enumerate() {
        for (p, zeta) in points[m].iter().enumerate() {
            let pt = univariate_to_point(*zeta).unwrap();
            let expected: Vec<Ext3> = coeffs.iter().map(|c| eval_poly::<Ext3>(c, *log_n, pt)).collect();
            assert_eq!(values[0][m][p], expected);
        }
    }
    assert_eq!(proof.reduced_openings.len(), num_queries);

    let claims = evaluations
        .iter()
        .enumerate()
        .map(|(m, (domain, _))| {
            let pairs = points[m].iter().zip(&values[0][m]).map(|(z, v)| (*z, v.clone())).collect();
            (*domain, pairs)
        })
        .collect();
    let mut challenger = Challenger::new(&vec![]);
    assert_eq!(pcs.verify(vec![(commit, claims)], &proof, &mut challenger), Ok(()));
}

#[test]
fn commit_open_verify_one_matrix() {
    commit_open_verify(1, 8, &[(3, 1, 1)]);
}

#[test]
fn open_without_blowup_has_nothing_to_correct_by() {
    // Without blowup the weights of the correction vanish on the whole
    // committed domain, so there is no coefficient to divide out.
    let mut rng = Lcg(8);
    let pcs = pcs(0, 8);
    let coeffs = random_coeffs(&mut rng, 3, 2);
    let domain = CircleDomain::standard(3);
    let (_, data) = pcs.commit(vec![(domain, evaluate(&coeffs, 3, domain))]).unwrap();
    let mut challenger = Challenger::new(&vec![]);
    let r = pcs.open(vec![(&data, vec![vec![rng.next_ext()]])], &mut challenger);
    assert_eq!(r.err(), Some(FriError::MalformedInput));
    assert_eq!(fri_input_for_height(&vec![Ext3::one(); 8], 3, 0, Ext3::one()), None);
}

#[test]
fn commit_open_verify_mixed_heights_and_points() {
    commit_open_verify(1, 16, &[(3, 2, 2), (2, 1, 1), (3, 1, 3)]);
}

#[test]
fn commit_open_verify_blowup_two() {
    commit_open_verify(2, 4, &[(2, 3, 2)]);
}

#[test]
fn verify_rejects_tampered_openings() {
    let mut rng = Lcg(9);
    let pcs = pcs(1, 8);
    let coeffs = random_coeffs(&mut rng, 3, 1);
    let domain = CircleDomain::standard(3);
    let (commit, data) = pcs.commit(vec![(domain, evaluate(&coeffs, 3, domain))]).unwrap();
    let mut challenger = Challenger::new(&vec![]);
    let (_, proof) = pcs.open(vec![(&data, vec![vec![rng.next_ext()]])], &mut challenger).unwrap();

    let mut tampered = PcsProof {
        fri_proof: proof.fri_proof,
        reduced_openings: proof.reduced_openings.clone(),
    };
    let mut challenger = Challenger::new(&vec![]);
    assert_eq!(pcs.verify(vec![(commit, vec![])], &tampered, &mut challenger), Ok(()));

    let top = tampered.reduced_openings[0].len() - 1;
    tampered.reduced_openings[0][top] =
        tampered.reduced_openings[0][top].map(|v| v.plus(Ext3::one()));
    let mut challenger = Challenger::new(&vec![]);
    let r = pcs.verify(vec![(commit, vec![])], &tampered, &mut challenger);
    assert!(r == Err(FriError::OpeningProofInvalid) || r == Err(FriError::InconsistentFold));

    tampered.reduced_openings.pop();
    let mut challenger = Challenger::new(&vec![]);
    assert_eq!(
        pcs.verify(vec![(commit, vec![])], &tampered, &mut challenger),
        Err(FriError::MalformedInput)
    );
}

#[test]
fn commit_turns_down_malformed_input() {
    let pcs = pcs(1, 8);
    assert_eq!(pcs.commit(vec![]).err(), Some(FriError::MalformedInput));
    let domain = CircleDomain::standard(3);
    let short = RowMajorMatrix::new(vec![M31::one(); 4], 1);
    assert_eq!(pcs.commit(vec![(domain, short)]).err(), Some(FriError::MalformedInput));
    let no_columns = RowMajorMatrix::new(vec![], 0);
    assert_eq!(pcs.commit(vec![(domain, no_columns)]).err(), Some(FriError::MalformedInput));
    let one_point = CircleDomain::standard(0);
    let singleton = RowMajorMatrix::new(vec![M31::one()], 1);
    assert_eq!(pcs.commit(vec![(one_point, singleton)]).err(), Some(FriError::MalformedInput));
}

#[test]
fn open_turns_down_points_given_for_the_wrong_matrices() {
    let mut rng = Lcg(10);
    let pcs = pcs(1, 8);
    let coeffs = random_coeffs(&mut rng, 2, 1);
    let domain = CircleDomain::standard(2);
    let (_, data): (_, ProverData) = pcs.commit(vec![(domain, evaluate(&coeffs, 2, domain))]).unwrap();
    let mut challenger = Challenger::new(&vec![]);
    let r = pcs.open(vec![(&data, vec![vec![rng.next_ext()], vec![rng.next_ext()]])], &mut challenger);
    assert_eq!(r.err(), Some(FriError::MalformedInput));
    let mut challenger = Challenger::new(&vec![]);
    assert_eq!(pcs.open(vec![], &mut challenger).err(), Some(FriError::MalformedInput));
}

#[test]
fn deep_quotient_divides_by_the_line_through_the_point() {
    let mut rng = Lcg(12);
    let domain = CircleDomain::standard(2);
    let coeffs = random_coeffs(&mut rng, 2, 2);
    let p = evaluate(&coeffs, 2, domain);
    let zeta = univariate_to_point(rng.next_ext()).unwrap();
    let ps_at_zeta = open_mat_at_point(domain, &p, zeta).unwrap();
    let q = deep_quotient(domain, &p, zeta, &ps_at_zeta).unwrap();
    assert_eq!(q.width, 2);
    assert_eq!(q.height(), 4);

    let conj = Complex::new(zeta.re.frobenius(), zeta.im.frobenius());
    for (i, x) in domain.points().into_iter().enumerate() {
        let denom = pair_vanishing(zeta, conj, x.lift::<Ext3>());
        for c in 0..2 {
            let line = frob_line(zeta, ps_at_zeta[c], x).unwrap();
            assert_eq!(q.get(i, c).times(denom), Ext3::embed(p.get(i, c)).minus(line));
        }
    }
    // The line takes the claim at the point and vanishes at neither end.
    assert_eq!(pair_vanishing(zeta, conj, zeta), Ext3::zero());
    assert_eq!(pair_vanishing(zeta, conj, conj), Ext3::zero());

    // A point of the base field is its own conjugate: no line.
    let real = domain.point(1).lift::<Ext3>();
    assert_eq!(frob_line(real, Ext3::one(), domain.point(0)), None);
    assert_eq!(deep_quotient(domain, &p, real, &ps_at_zeta), None);
}

#[test]
fn reduce_matrix_is_not_defined_at_a_point_of_the_domain() {
    let mut rng = Lcg(13);
    let domain = CircleDomain::standard(2);
    let coeffs = random_coeffs(&mut rng, 2, 1);
    let p = evaluate(&coeffs, 2, domain);
    let on_domain = domain.point(3).lift::<Ext3>();
    assert_eq!(reduce_matrix(domain, &p, on_domain, &vec![Ext3::one()], rng.next_ext()), None);
    assert_eq!(open_mat_at_point(domain, &p, on_domain), None);
    assert_eq!(domain.lagrange_basis(on_domain), None);
}

#[test]
fn reduce_matrix_is_the_quotient_by_the_number_that_vanishes_at_the_point() {
    let mut rng = Lcg(14);
    let domain = CircleDomain::standard(2);
    let coeffs = random_coeffs(&mut rng, 2, 2);
    let p = evaluate(&coeffs, 2, domain);
    let zeta = univariate_to_point(rng.next_ext()).unwrap();
    let claims = vec![rng.next_ext(), rng.next_ext()];
    let mu = rng.next_ext();
    let reduced = reduce_matrix(domain, &p, zeta, &claims, mu).unwrap();
    for (i, x) in domain.points().into_iter().enumerate() {
        // v = 1 - x / zeta, as a complex number over the extension.
        let rot = x.lift::<Ext3>().rotate(zeta.conjugate());
        let (re, im) = (Ext3::one().minus(rot.re), rot.im);
        let norm = re.times(re).plus(im.times(im));
        let factor = re.minus(pow(mu, 2).times(im)).times(norm.try_inverse().unwrap());
        let row = Ext3::embed(p.get(i, 0))
            .minus(claims[0])
            .plus(mu.times(Ext3::embed(p.get(i, 1)).minus(claims[1])));
        assert_eq!(reduced[i], factor.times(row));
    }
}

#[test]
fn extract_lambda_leaves_nothing_along_the_weights() {
    let mut rng = Lcg(15);
    let domain = CircleDomain::standard(3);
    let values: Vec<Ext3> = (0..8).map(|_| rng.next_ext()).collect();
    let mut column = RowMajorMatrix::new_col(values.clone());
    let lambdas = extract_lambda(domain, &mut column, 1).unwrap();

    // The weights: the polynomial that vanishes on the domain of four
    // points, at the eight points.
    let weights: Vec<M31> = domain.points().iter().map(|x| circle_pcs::domain::v_n(x.re, 2)).collect();
    let dot = |v: &[Ext3]| {
        let mut acc = Ext3::zero();
        for (a, w) in v.iter().zip(&weights) {
            acc = acc.plus(a.times(Ext3::embed(*w)));
        }
        acc
    };
    let mut norm = M31::zero();
    for w in &weights {
        norm = norm.plus(w.times(*w));
    }
    assert_eq!(lambdas, vec![dot(&values).times(Ext3::embed(norm).try_inverse().unwrap())]);
    assert_eq!(dot(&column.values), Ext3::zero());
    for i in 0..8 {
        assert_eq!(column.values[i], values[i].minus(lambdas[0].times(Ext3::embed(weights[i]))));
    }
    assert_eq!(column.width(), 1);
}

#[test]
fn accumulator_of_one_opening_is_the_reduced_matrix() {
    let mut rng = Lcg(16);
    let coeffs = random_coeffs(&mut rng, 2, 2);
    let domain = CircleDomain::standard(2);
    let pcs = pcs(1, 4);
    let (_, data) = pcs.commit(vec![(domain, evaluate(&coeffs, 2, domain))]).unwrap();
    let zeta = rng.next_ext();
    let mu = rng.next_ext();
    let (values, states) = pcs.open_rounds(&vec![(&data, vec![vec![zeta]])], mu).unwrap();

    let committed = CircleDomain::standard(3);
    let lde = pcs.get_evaluations_on_domain(&data, 0, committed);
    let zeta_point = univariate_to_point(zeta).unwrap();
    let expected = reduce_matrix(committed, &lde, zeta_point, &values[0][0][0], mu).unwrap();
    assert_eq!(states[3].acc.values, expected);
    assert_eq!(states[3].acc.num_reduced, 4);

    // A second point starts where the first has left off: at `mu^4`.
    let zeta2 = rng.next_ext();
    let (values2, states2) = pcs.open_rounds(&vec![(&data, vec![vec![zeta, zeta2]])], mu).unwrap();
    let second = reduce_matrix(
        committed,
        &lde,
        univariate_to_point(zeta2).unwrap(),
        &values2[0][0][1],
        mu,
    )
    .unwrap();
    for i in 0..8 {
        assert_eq!(
            states2[3].acc.values[i],
            expected[i].plus(second[i].times(pow(mu, 4)))
        );
    }
    assert_eq!(states2[3].acc.num_reduced, 8);
}

#[test]
fn proofs_depend_on_what_the_transcript_has_taken_in() {
    let mut rng = Lcg(17);
    let pcs = pcs(1, 8);
    let coeffs = random_coeffs(&mut rng, 3, 1);
    let domain = CircleDomain::standard(3);
    let (commit, data) = pcs.commit(vec![(domain, evaluate(&coeffs, 3, domain))]).unwrap();
    let zeta = rng.next_ext();

    let mut fresh = Challenger::new(&vec![]);
    let (values_a, proof_a) = pcs.open(vec![(&data, vec![vec![zeta]])], &mut fresh).unwrap();
    let mut primed = Challenger::new(&vec![commit]);
    let (values_b, proof_b) = pcs.open(vec![(&data, vec![vec![zeta]])], &mut primed).unwrap();
    assert_eq!(values_a, values_b);
    assert_ne!(proof_a.fri_proof.commit_phase_commits, proof_b.fri_proof.commit_phase_commits);

    // A proof verifies against the transcript that it was made with.
    let mut primed = Challenger::new(&vec![commit]);
    assert_eq!(pcs.verify(vec![], &proof_b, &mut primed), Ok(()));
    let mut fresh = Challenger::new(&vec![]);
    assert!(pcs.verify(vec![], &proof_b, &mut fresh).is_err());
}

#[test]
fn transcript_takes_in_commitments_in_order() {
    let mut rng = Lcg(18);
    let pcs = pcs(1, 4);
    let domain = CircleDomain::standard(2);
    let (a, data) = pcs.commit(vec![(domain, evaluate(&random_coeffs(&mut rng, 2, 1), 2, domain))]).unwrap();
    let (b, _) = pcs.commit(vec![(domain, evaluate(&random_coeffs(&mut rng, 2, 1), 2, domain))]).unwrap();
    assert_ne!(a, b);
    let zeta = rng.next_ext();
    let open_with = |observed: Vec<_>| {
        let mut challenger = Challenger::new(&observed);
        let (_, proof) = pcs.open(vec![(&data, vec![vec![zeta]])], &mut challenger).unwrap();
        proof.fri_proof.commit_phase_commits
    };
    // The same commitments in the same order give the same transcript.
    assert_eq!(open_with(vec![a, b]), open_with(vec![a, b]));
    // Another order, or one commitment fewer, gives another.
    assert_ne!(open_with(vec![a, b]), open_with(vec![b, a]));
    assert_ne!(open_with(vec![a, b]), open_with(vec![a]));
    assert_ne!(open_with(vec![a]), open_with(vec![]));
}

// What a transcript gives next, seen through the proof of an opening that
// is made on it.
fn next_of(challenger: &mut Challenger) -> (Vec<Commitment>, Vec<Vec<Option<Ext3>>>) {
    let proof = opening_on(challenger);
    (proof.fri_proof.commit_phase_commits, proof.reduced_openings)
}

fn opening_on(challenger: &mut Challenger) -> PcsProof {
    let mut rng = Lcg(901);
    let pcs = pcs(1, 16);
    let domain = CircleDomain::standard(3);
    let (_, data) = pcs.commit(vec![(domain, evaluate(&random_coeffs(&mut rng, 3, 1), 3, domain))]).unwrap();
    pcs.open(vec![(&data, vec![vec![rng.next_ext()]])], challenger).unwrap().1
}

#[test]
fn open_turns_malformed_rounds_down_before_it_touches_the_transcript() {
    let mut rng = Lcg(19);
    let pcs = pcs(1, 8);
    let coeffs = random_coeffs(&mut rng, 2, 1);
    let domain = CircleDomain::standard(2);
    let (_, data) = pcs.commit(vec![(domain, evaluate(&coeffs, 2, domain))]).unwrap();
    let mut challenger = Challenger::new(&vec![]);
    let r = pcs.open(vec![(&data, vec![vec![rng.next_ext()], vec![rng.next_ext()]])], &mut challenger);
    assert_eq!(r.err(), Some(FriError::MalformedInput));
    assert_eq!(pcs.open(vec![], &mut challenger).err(), Some(FriError::MalformedInput));
    assert!(!pcs.check_open_shape(&vec![]));
    assert!(pcs.check_open_shape(&vec![(&data, vec![vec![rng.next_ext()]])]));
    assert_eq!(next_of(&mut challenger), next_of(&mut Challenger::new(&vec![])));
}

#[test]
fn verify_turns_a_malformed_proof_down_before_it_touches_the_transcript() {
    let pcs = pcs(1, 8);
    let mut proof = opening_on(&mut Challenger::new(&vec![]));
    // The proof was made for sixteen queries.
    let mut challenger = Challenger::new(&vec![]);
    assert_eq!(pcs.verify(vec![], &proof, &mut challenger), Err(FriError::MalformedInput));
    proof.fri_proof.query_proofs.truncate(8);
    assert_eq!(pcs.verify(vec![], &proof, &mut challenger), Err(FriError::MalformedInput));
    proof.reduced_openings.truncate(8);
    let top = proof.reduced_openings[5].len() - 1;
    let value = proof.reduced_openings[5][top].take();
    assert!(value.is_some());
    assert_eq!(pcs.verify(vec![], &proof, &mut challenger), Err(FriError::MalformedInput));
    proof.reduced_openings[5][top] = value;
    proof.fri_proof.query_proofs[3].commit_phase_openings.pop();
    assert_eq!(pcs.verify(vec![], &proof, &mut challenger), Err(FriError::MalformedInput));
    assert_eq!(next_of(&mut challenger), next_of(&mut Challenger::new(&vec![])));
}

#[test]
fn verify_leaves_the_transcript_as_open_left_it() {
    let mut rng = Lcg(20);
    let pcs = pcs(1, 8);
    let coeffs = random_coeffs(&mut rng, 3, 2);
    let domain = CircleDomain::standard(3);
    let (_, data) = pcs.commit(vec![(domain, evaluate(&coeffs, 3, domain))]).unwrap();
    let mut opening = Challenger::new(&vec![]);
    let (_, proof) = pcs.open(vec![(&data, vec![vec![rng.next_ext()]])], &mut opening).unwrap();
    assert_eq!(proof.reduced_openings.len(), 8);
    let mut verifying = Challenger::new(&vec![]);
    assert_eq!(pcs.verify(vec![], &proof, &mut verifying), Ok(()));
    let after_opening = next_of(&mut opening);
    assert_eq!(after_opening, next_of(&mut verifying));
    assert_ne!(after_opening.0, next_of(&mut Challenger::new(&vec![])).0);
}
