use circle_pcs::complex::Complex;
use circle_pcs::domain::CircleDomain;
use circle_pcs::extension::Ext3;
use circle_pcs::extension::M31Algebra;
use circle_pcs::field::{Field, Ring};
use circle_pcs::folding::{
    circle_bitrev_idx, circle_bitrev_permute, fold, fold_bivariate, fold_univariate,
};
use circle_pcs::matrix::RowMajorMatrix;
use circle_pcs::mersenne31::M31;

const P: u64 = (1 << 31) - 1;

struct Lcg(u64);

impl Lcg {
    fn next_u32(&mut self) -> u32 {
        self.0 = self.0.wrapping_mul(6364136223846793005).wrapping_add(1442695040888963407);
        ((self.0 >> 33) % P) as u32
    }

    fn next_m31(&mut self) -> M31 {
        M31::new(self.next_u32())
    }

    fn next_ext(&mut self) -> Ext3 {
        Ext3::new(self.next_m31(), self.next_m31(), self.next_m31())
    }
}

fn double_x(x: M31) -> M31 {
    x.times(x).plus(x.times(x)).minus(M31::one())
}

// Basis function `k` of the polynomials of a domain of `2^log_n` points:
// `y^k0 * x^k1 * pi(x)^k2 * ...` over the binary digits of `k`.
fn basis_eval(k: usize, log_n: usize, pt: Complex<M31>) -> M31 {
    let mut r = M31::one();
    if k & 1 == 1 {
        r = r.times(pt.im);
    }
    let mut x = pt.re;
    for i in 0..log_n.saturating_sub(1) {
        if (k >> (i + 1)) & 1 == 1 {
            r = r.times(x);
        }
        x = double_x(x);
    }
    r
}

fn eval_poly(coeffs: &[M31], log_n: usize, pt: Complex<M31>) -> M31 {
    let mut acc = M31::zero();
    for (k, c) in coeffs.iter().enumerate() {
        acc = acc.plus(c.times(basis_eval(k, log_n, pt)));
    }
    acc
}

fn low_degree_evals(rng: &mut Lcg, log_n: usize, log_blowup: usize) -> Vec<Ext3> {
    let coeffs: Vec<Vec<M31>> =
        (0..3).map(|_| (0..1usize << log_n).map(|_| rng.next_m31()).collect()).collect();
    CircleDomain::standard(log_n + log_blowup)
        .points()
        .into_iter()
        .map(|p| {
            Ext3::new(
                eval_poly(&coeffs[0], log_n, p),
                eval_poly(&coeffs[1], log_n, p),
                eval_poly(&coeffs[2], log_n, p),
            )
        })
        .collect()
}

#[test]
fn test_circle_bitrev() {
    assert_eq!(circle_bitrev_permute(&vec![0]), vec![0]);
    assert_eq!(circle_bitrev_permute(&vec![0, 1]), vec![0, 1]);
    assert_eq!(circle_bitrev_permute(&vec![0, 1, 2, 3]), vec![0, 3, 1, 2]);
    assert_eq!(
        circle_bitrev_permute(&vec![0, 1, 2, 3, 4, 5, 6, 7]),
        vec![0, 7, 3, 4, 1, 6, 2, 5]
    );
}

fn do_test_folding(log_n: usize, log_blowup: usize) {
    let mut rng = Lcg(17 + log_n as u64);
    let mut evals = low_degree_evals(&mut rng, log_n, log_blowup);
    evals = circle_bitrev_permute(&evals);
    evals = fold_bivariate(&RowMajorMatrix::new(evals, 2), rng.next_ext());
    for _ in log_blowup..(log_n + log_blowup - 1) {
        evals = fold_univariate(&RowMajorMatrix::new(evals, 2), rng.next_ext());
    }
    assert_eq!(evals.len(), 1 << log_blowup);
    assert_eq!(evals, vec![evals[0]; evals.len()]);
}

#[test]
fn test_folding() {
    do_test_folding(4, 1);
    do_test_folding(5, 2);
}

#[test]
fn folding_without_blowup_ends_in_one_value() {
    do_test_folding(3, 0);
}

#[test]
fn folding_a_vector_that_is_not_low_degree_is_not_constant() {
    let mut rng = Lcg(5);
    let mut evals = low_degree_evals(&mut rng, 3, 1);
    evals[5] = evals[5].plus(Ext3::one());
    evals = circle_bitrev_permute(&evals);
    evals = fold_bivariate(&RowMajorMatrix::new(evals, 2), rng.next_ext());
    for _ in 0..2 {
        evals = fold_univariate(&RowMajorMatrix::new(evals, 2), rng.next_ext());
    }
    assert_eq!(evals.len(), 2);
    assert_ne!(evals[0], evals[1]);
}

#[test]
fn circle_bitrev_idx_pairs_a_point_with_its_conjugate() {
    for bits in 1..7usize {
        for i in 0..(1usize << (bits - 1)) {
            let h = circle_bitrev_idx(i, bits - 1);
            assert_eq!(circle_bitrev_idx(2 * i, bits), h);
            assert_eq!(circle_bitrev_idx(2 * i + 1, bits), (1 << bits) - 1 - h);
        }
    }
}

#[test]
fn circle_bitrev_permute_twice_is_the_identity_up_to_two_entries() {
    assert_eq!(circle_bitrev_permute(&circle_bitrev_permute(&vec![9])), vec![9]);
    assert_eq!(circle_bitrev_permute(&circle_bitrev_permute(&vec![9, 4])), vec![9, 4]);
    assert_eq!(
        circle_bitrev_permute(&circle_bitrev_permute(&vec![0, 1, 2, 3])),
        vec![0, 2, 3, 1]
    );
}

#[test]
fn fold_of_one_pair_is_exact() {
    // (lo + hi + beta * (lo - hi) * t) / 2 with lo = 10, hi = 4, beta = 3, t = 5:
    // (14 + 3 * 6 * 5) / 2 = 52.
    let lo = Ext3::new(M31::new(10), M31::zero(), M31::zero());
    let hi = Ext3::new(M31::new(4), M31::zero(), M31::zero());
    let beta = Ext3::new(M31::new(3), M31::zero(), M31::zero());
    let out = fold(&RowMajorMatrix::new(vec![lo, hi], 2), beta, &vec![M31::new(5)]);
    assert_eq!(out, vec![Ext3::new(M31::new(52), M31::zero(), M31::zero())]);
}

#[test]
fn fold_of_the_values_at_a_point_and_its_conjugate() {
    // The values of `f0 + y f1` where the second coordinate is `y` and
    // `-y` fold to `f0 + beta f1`.
    let mut rng = Lcg(23);
    for _ in 0..20 {
        let (f0, f1, beta) = (rng.next_ext(), rng.next_ext(), rng.next_ext());
        let y = rng.next_m31();
        let t = y.try_inverse().unwrap();
        let lo = f0.plus(f1.times(Ext3::embed(y)));
        let hi = f0.minus(f1.times(Ext3::embed(y)));
        let out = fold(&RowMajorMatrix::new(vec![lo, hi], 2), beta, &vec![t]);
        assert_eq!(out, vec![f0.plus(beta.times(f1))]);
    }
}

#[test]
fn circle_bitrev_idx_is_one_to_one_and_onto() {
    for bits in 0..8usize {
        let mut seen = vec![false; 1 << bits];
        for i in 0..(1usize << bits) {
            let j = circle_bitrev_idx(i, bits);
            assert!(!seen[j]);
            seen[j] = true;
        }
        assert!(seen.iter().all(|&s| s));
    }
}

#[test]
fn neighbours_hold_a_point_and_its_conjugate() {
    for log_n in 1..6usize {
        let points = circle_bitrev_permute(&CircleDomain::standard(log_n).points());
        for pair in points.chunks(2) {
            assert_eq!(pair[1], pair[0].conjugate());
        }
    }
}
