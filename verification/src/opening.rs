//! The claims and the reduced openings of a batch of matrices at points
//! outside their domains.

use vstd::prelude::*;
use crate::cfft::{interpolate_spec, open_mat_at_point};
use crate::complex::Complex;
use crate::deep_quotient::{lhs, lhs_denom_spec, lhs_spec, reduce_defined, reduce_row, reduce_row_spec};
use crate::domain::{univariate_to_point, univariate_to_point_spec, CircleDomain};
use crate::extension::{Ext3, M31Algebra};
use crate::field::{pow, pow_spec, Field, Ring};
use crate::matrix::{MatrixView, RowMajorMatrix};
use crate::mersenne31::M31;

verus! {

/// The point of the circle at which the parameter `zeta` opens a matrix on
/// `domain`, if there is one and the Lagrange basis is defined at it.
#[verifier::opaque]
pub open spec fn opening_point_spec(domain: CircleDomain, zeta: Ext3) -> Option<Complex<Ext3>> {
    match univariate_to_point_spec(zeta) {
        None => None,
        Some(pt) => if domain.basis_defined_spec(pt) {
            Some(pt)
        } else {
            None
        },
    }
}

/// The claimed values of the columns of `mat` at the point `pt`.
#[verifier::opaque]
pub open spec fn claims_spec(domain: CircleDomain, mat: MatrixView<M31>, pt: Complex<Ext3>) -> Seq<Ext3> {
    Seq::new(mat.width, |c: int| interpolate_spec(domain, mat, pt, c))
}

/// The values at `zeta` of the polynomials whose values on `domain` are the
/// columns of `mat`.
pub fn open_at(domain: CircleDomain, mat: &RowMajorMatrix<M31>, zeta: Ext3) -> (r: Option<Vec<Ext3>>)
    requires
        domain.wf(),
        domain.log_n >= 1,
        mat.wf(),
        mat.height_spec() == domain.size_spec(),
    ensures
        r is Some <==> opening_point_spec(domain, zeta) is Some,
        r matches Some(v) ==> v@ == claims_spec(domain, mat@, opening_point_spec(domain, zeta).unwrap()),
        r matches Some(v) ==> v@.len() == mat.width,
{
    reveal(opening_point_spec);
    reveal(claims_spec);
    let pt = match univariate_to_point(zeta) {
        None => {
            return None;
        },
        Some(pt) => pt,
    };
    match open_mat_at_point(domain, mat, pt) {
        None => None,
        Some(v) => {
            proof {
                assert(v@ =~= claims_spec(domain, mat@, pt));
            }
            Some(v)
        },
    }
}

/// The accumulator after one opening has been added to it: to every row,
/// the factor of the row times `mu^offset` times the row and the claims
/// reduced with the powers of `mu`.
#[verifier::opaque]
pub open spec fn accumulate_spec(
    ro: Seq<Ext3>,
    domain: CircleDomain,
    mat: MatrixView<M31>,
    pt: Complex<Ext3>,
    ps_at_zeta: Seq<Ext3>,
    mu: Ext3,
    offset: nat,
) -> Seq<Ext3> {
    Seq::new(
        ro.len(),
        |i: int|
            ro[i].plus_spec(
                lhs_spec(domain.point_spec(i as nat), pt, pow_spec(mu, mat.width)).times_spec(
                    pow_spec(mu, offset),
                ).times_spec(reduce_row_spec(mat.row_spec(i), ps_at_zeta, mu, mat.width)),
            ),
    )
}

/// Adds one opening to an accumulator; `None` where `pt` is a point of the
/// domain.
pub fn accumulate(
    ro: &Vec<Ext3>,
    domain: CircleDomain,
    mat: &RowMajorMatrix<M31>,
    pt: Complex<Ext3>,
    ps_at_zeta: &Vec<Ext3>,
    mu: Ext3,
    offset: usize,
) -> (r: Option<Vec<Ext3>>)
    requires
        domain.wf(),
        mat.wf(),
        mat.height_spec() == domain.size_spec(),
        ro@.len() == domain.size_spec(),
        ps_at_zeta@.len() == mat.width,
    ensures
        r is Some <==> reduce_defined(domain, pt),
        r matches Some(v) ==> v@ == accumulate_spec(
            ro@,
            domain,
            mat@,
            pt,
            ps_at_zeta@,
            mu,
            offset as nat,
        ),
{
    reveal(accumulate_spec);
    let points = domain.points();
    let h = mat.height();
    let mu_pow_width = pow(mu, mat.width as u64);
    let mu_pow_offset = pow(mu, offset as u64);
    let mut out: Vec<Ext3> = Vec::new();
    let mut i: usize = 0;
    while i < h
        invariant
            domain.wf(),
            mat.wf(),
            h == mat.height_spec(),
            h == domain.size_spec(),
            ro@.len() == h,
            ps_at_zeta@.len() == mat.width,
            points@ == domain.points_spec(),
            mu_pow_width == pow_spec(mu, mat.width as nat),
            mu_pow_offset == pow_spec(mu, offset as nat),
            i <= h,
            out@.len() == i,
            forall|k: nat|
                k < i ==> #[trigger] lhs_denom_spec(domain.point_spec(k), pt) != Ext3::zero_spec(),
            forall|k: int|
                0 <= k < i ==> #[trigger] out@[k] == accumulate_spec(
                    ro@,
                    domain,
                    mat@,
                    pt,
                    ps_at_zeta@,
                    mu,
                    offset as nat,
                )[k],
        decreases h - i,
    {
        let row = mat.row(i);
        proof {
            reveal(accumulate_spec);
        }
        match lhs(points[i], pt, mu_pow_width) {
            None => {
                return None;
            },
            Some(factor) => {
                out.push(
                    ro[i].plus(factor.times(mu_pow_offset).times(reduce_row(&row, ps_at_zeta, mu))),
                );
            },
        }
        i += 1;
    }
    proof {
        reveal(accumulate_spec);
        assert(out@ =~= accumulate_spec(ro@, domain, mat@, pt, ps_at_zeta@, mu, offset as nat));
    }
    Some(out)
}

/// The accumulator of one height: the sum so far, and the number of
/// powers of the batching challenge that have been used up.
pub struct Accumulator {
    pub values: Vec<Ext3>,
    pub num_reduced: usize,
}

/// What one opening makes of the accumulator of its height, if the opening
/// is defined and the powers used can be counted.
#[verifier::opaque]
pub open spec fn open_step_spec(
    acc: (Seq<Ext3>, nat),
    domain: CircleDomain,
    mat: MatrixView<M31>,
    zeta: Ext3,
    mu: Ext3,
) -> Option<(Seq<Ext3>, nat)> {
    match opening_point_spec(domain, zeta) {
        None => None,
        Some(pt) => if reduce_defined(domain, pt) && acc.1 + 2 * mat.width <= usize::MAX {
            Some(
                (
                    accumulate_spec(acc.0, domain, mat, pt, claims_spec(domain, mat, pt), mu, acc.1),
                    (acc.1 + 2 * mat.width) as nat,
                ),
            )
        } else {
            None
        },
    }
}

/// What the first `n` points make of the accumulator of a matrix's height.
#[verifier::opaque]
pub open spec fn open_points_spec(
    acc: (Seq<Ext3>, nat),
    domain: CircleDomain,
    mat: MatrixView<M31>,
    points: Seq<Ext3>,
    mu: Ext3,
    n: nat,
) -> Option<(Seq<Ext3>, nat)>
    decreases n,
{
    if n == 0 {
        Some(acc)
    } else {
        match open_points_spec(acc, domain, mat, points, mu, (n - 1) as nat) {
            None => None,
            Some(before) => open_step_spec(before, domain, mat, points[n - 1], mu),
        }
    }
}

/// What the point of an opening is made of.
pub proof fn lemma_opening_point_unfold(domain: CircleDomain, zeta: Ext3)
    ensures
        opening_point_spec(domain, zeta) == (match univariate_to_point_spec(zeta) {
            None => None,
            Some(pt) => if domain.basis_defined_spec(pt) {
                Some(pt)
            } else {
                None
            },
        }),
{
    reveal(opening_point_spec);
}

/// What one opening is made of.
pub proof fn lemma_open_step_unfold(
    acc: (Seq<Ext3>, nat),
    domain: CircleDomain,
    mat: MatrixView<M31>,
    zeta: Ext3,
    mu: Ext3,
)
    ensures
        open_step_spec(acc, domain, mat, zeta, mu) == (match opening_point_spec(domain, zeta) {
            None => None,
            Some(pt) => if reduce_defined(domain, pt) && acc.1 + 2 * mat.width <= usize::MAX {
                Some(
                    (
                        accumulate_spec(acc.0, domain, mat, pt, claims_spec(domain, mat, pt), mu, acc.1),
                        (acc.1 + 2 * mat.width) as nat,
                    ),
                )
            } else {
                None
            },
        }),
{
    reveal(open_step_spec);
}

/// Opens a matrix at one point: returns the claims and the accumulator of
/// the matrix's height with the opening added.
pub fn open_step(
    acc: Accumulator,
    domain: CircleDomain,
    mat: &RowMajorMatrix<M31>,
    zeta: Ext3,
    mu: Ext3,
) -> (r: Option<(Vec<Ext3>, Accumulator)>)
    requires
        domain.wf(),
        domain.log_n >= 1,
        mat.wf(),
        mat.height_spec() == domain.size_spec(),
        acc.values@.len() == domain.size_spec(),
    ensures
        r is Some <==> open_step_spec((acc.values@, acc.num_reduced as nat), domain, mat@, zeta, mu)
            is Some,
        r matches Some((claims, after)) ==> {
            &&& Some((after.values@, after.num_reduced as nat)) == open_step_spec(
                (acc.values@, acc.num_reduced as nat),
                domain,
                mat@,
                zeta,
                mu,
            )
            &&& after.values@.len() == domain.size_spec()
            &&& claims@ == claims_spec(domain, mat@, opening_point_spec(domain, zeta).unwrap())
        },
{
    proof {
        lemma_opening_point_unfold(domain, zeta);
        lemma_open_step_unfold((acc.values@, acc.num_reduced as nat), domain, mat@, zeta, mu);
    }
    let ps = match open_at(domain, mat, zeta) {
        None => {
            return None;
        },
        Some(ps) => ps,
    };
    let pt = match univariate_to_point(zeta) {
        None => {
            return None;
        },
        Some(pt) => pt,
    };
    if mat.width > (usize::MAX - acc.num_reduced) / 2 {
        return None;
    }
    match accumulate(&acc.values, domain, mat, pt, &ps, mu, acc.num_reduced) {
        None => None,
        Some(values) => {
            proof {
                assert(values@.len() == domain.size_spec()) by {
                    reveal(accumulate_spec);
                }
            }
            Some((ps, Accumulator { values, num_reduced: acc.num_reduced + 2 * mat.width }))
        },
    }
}

/// What one more point makes of the openings of a matrix.
pub proof fn lemma_open_points_unfold(
    acc: (Seq<Ext3>, nat),
    domain: CircleDomain,
    mat: MatrixView<M31>,
    points: Seq<Ext3>,
    mu: Ext3,
    n: nat,
)
    ensures
        open_points_spec(acc, domain, mat, points, mu, 0) == Some(acc),
        open_points_spec(acc, domain, mat, points, mu, n + 1) == match open_points_spec(
            acc,
            domain,
            mat,
            points,
            mu,
            n,
        ) {
            None => None,
            Some(before) => open_step_spec(before, domain, mat, points[n as int], mu),
        },
{
    reveal_with_fuel(open_points_spec, 2);
}

/// Opens a matrix at the given points: returns the claims at each point
/// and the accumulator of the matrix's height with the openings added.
pub fn open_matrix(
    acc: Accumulator,
    domain: CircleDomain,
    mat: &RowMajorMatrix<M31>,
    points: &Vec<Ext3>,
    mu: Ext3,
) -> (r: Option<(Vec<Vec<Ext3>>, Accumulator)>)
    requires
        domain.wf(),
        domain.log_n >= 1,
        mat.wf(),
        mat.height_spec() == domain.size_spec(),
        acc.values@.len() == domain.size_spec(),
    ensures
        r is Some <==> open_points_spec(
            (acc.values@, acc.num_reduced as nat),
            domain,
            mat@,
            points@,
            mu,
            points@.len(),
        ) is Some,
        r matches Some((claims, after)) ==> {
            &&& Some((after.values@, after.num_reduced as nat)) == open_points_spec(
                (acc.values@, acc.num_reduced as nat),
                domain,
                mat@,
                points@,
                mu,
                points@.len(),
            )
            &&& after.values@.len() == domain.size_spec()
            &&& claims@.len() == points@.len()
            &&& forall|p: int|
                0 <= p < points@.len() ==> (#[trigger] claims@[p])@ == claims_spec(
                    domain,
                    mat@,
                    opening_point_spec(domain, points@[p]).unwrap(),
                )
        },
{
    let ghost start = (acc.values@, acc.num_reduced as nat);
    let mut current = acc;
    let mut claims: Vec<Vec<Ext3>> = Vec::new();
    let mut p: usize = 0;
    proof {
        lemma_open_points_unfold(start, domain, mat@, points@, mu, 0);
    }
    while p < points.len()
        invariant
            domain.wf(),
            domain.log_n >= 1,
            mat.wf(),
            mat.height_spec() == domain.size_spec(),
            current.values@.len() == domain.size_spec(),
            start == (acc.values@, acc.num_reduced as nat),
            p <= points@.len(),
            claims@.len() == p,
            open_points_spec(start, domain, mat@, points@, mu, p as nat) == Some(
                (current.values@, current.num_reduced as nat),
            ),
            forall|k: int|
                0 <= k < p ==> (#[trigger] claims@[k])@ == claims_spec(
                    domain,
                    mat@,
                    opening_point_spec(domain, points@[k]).unwrap(),
                ),
        decreases points@.len() - p,
    {
        proof {
            lemma_open_points_unfold(start, domain, mat@, points@, mu, p as nat);
        }
        match open_step(current, domain, mat, points[p], mu) {
            None => {
                proof {
                    lemma_open_points_stay_failed(
                        start,
                        domain,
                        mat@,
                        points@,
                        mu,
                        (p + 1) as nat,
                        points@.len(),
                    );
                }
                return None;
            },
            Some((ps, next)) => {
                current = next;
                claims.push(ps);
            },
        }
        p += 1;
    }
    Some((claims, current))
}

/// Once an opening has failed, the openings of the matrix have failed.
pub proof fn lemma_open_points_stay_failed(
    acc: (Seq<Ext3>, nat),
    domain: CircleDomain,
    mat: MatrixView<M31>,
    points: Seq<Ext3>,
    mu: Ext3,
    p: nat,
    n: nat,
)
    requires
        p <= n,
        open_points_spec(acc, domain, mat, points, mu, p) is None,
    ensures
        open_points_spec(acc, domain, mat, points, mu, n) is None,
    decreases n - p,
{
    if p < n {
        lemma_open_points_stay_failed(acc, domain, mat, points, mu, p, (n - 1) as nat);
        lemma_open_points_unfold(acc, domain, mat, points, mu, (n - 1) as nat);
    }
}

/// The batching challenge has no part in the claims: whether the openings
/// of a matrix are defined, and how many powers of the challenge they use
/// up, is the same under any two challenges and from any two accumulators
/// that have used up the same number of powers. The claims themselves are
/// `claims_spec`, which takes no challenge.
pub proof fn lemma_openings_whatever_challenge(
    acc1: (Seq<Ext3>, nat),
    acc2: (Seq<Ext3>, nat),
    domain: CircleDomain,
    mat: MatrixView<M31>,
    points: Seq<Ext3>,
    mu1: Ext3,
    mu2: Ext3,
    n: nat,
)
    requires
        acc1.1 == acc2.1,
    ensures
        open_points_spec(acc1, domain, mat, points, mu1, n) is Some <==> open_points_spec(
            acc2,
            domain,
            mat,
            points,
            mu2,
            n,
        ) is Some,
        open_points_spec(acc1, domain, mat, points, mu1, n) matches Some(after1) ==> after1.1
            == open_points_spec(acc2, domain, mat, points, mu2, n).unwrap().1,
    decreases n,
{
    lemma_open_points_unfold(acc1, domain, mat, points, mu1, 0);
    lemma_open_points_unfold(acc2, domain, mat, points, mu2, 0);
    if n > 0 {
        let k = (n - 1) as nat;
        lemma_openings_whatever_challenge(acc1, acc2, domain, mat, points, mu1, mu2, k);
        lemma_open_points_unfold(acc1, domain, mat, points, mu1, k);
        lemma_open_points_unfold(acc2, domain, mat, points, mu2, k);
        let before1 = open_points_spec(acc1, domain, mat, points, mu1, k);
        let before2 = open_points_spec(acc2, domain, mat, points, mu2, k);
        if before1 is Some {
            lemma_opening_whatever_challenge(
                before1.unwrap(),
                before2.unwrap(),
                domain,
                mat,
                points[k as int],
                mu1,
                mu2,
            );
        }
    }
}

/// Whether one opening is defined, and how many powers it uses up, is the
/// same under any two challenges.
pub proof fn lemma_opening_whatever_challenge(
    acc1: (Seq<Ext3>, nat),
    acc2: (Seq<Ext3>, nat),
    domain: CircleDomain,
    mat: MatrixView<M31>,
    zeta: Ext3,
    mu1: Ext3,
    mu2: Ext3,
)
    requires
        acc1.1 == acc2.1,
    ensures
        open_step_spec(acc1, domain, mat, zeta, mu1) is Some <==> open_step_spec(
            acc2,
            domain,
            mat,
            zeta,
            mu2,
        ) is Some,
        open_step_spec(acc1, domain, mat, zeta, mu1) matches Some(after1) ==> after1.1
            == open_step_spec(acc2, domain, mat, zeta, mu2).unwrap().1,
{
    reveal(open_step_spec);
}

/// Two families of accumulators have the same shape: the same heights are
/// present, with the same lengths, and have used up the same numbers of
/// powers.
pub open spec fn same_shape(a: Seq<HeightView>, b: Seq<HeightView>) -> bool {
    &&& a.len() == b.len()
    &&& forall|h: int|
        0 <= h < a.len() ==> {
            &&& (#[trigger] a[h]).present == b[h].present
            &&& a[h].num_reduced == b[h].num_reduced
            &&& a[h].values.len() == b[h].values.len()
        }
}

/// An opening keeps the length of the accumulator.
pub proof fn lemma_open_points_len(
    acc: (Seq<Ext3>, nat),
    domain: CircleDomain,
    mat: MatrixView<M31>,
    points: Seq<Ext3>,
    mu: Ext3,
    n: nat,
)
    ensures
        open_points_spec(acc, domain, mat, points, mu, n) matches Some(after) ==> after.0.len()
            == acc.0.len(),
    decreases n,
{
    lemma_open_points_unfold(acc, domain, mat, points, mu, 0);
    if n > 0 {
        let k = (n - 1) as nat;
        lemma_open_points_len(acc, domain, mat, points, mu, k);
        lemma_open_points_unfold(acc, domain, mat, points, mu, k);
        if let Some(before) = open_points_spec(acc, domain, mat, points, mu, k) {
            lemma_open_step_unfold(before, domain, mat, points[k as int], mu);
            reveal(accumulate_spec);
        }
    }
}

/// The shape of the accumulators after the openings of a matrix does not
/// depend on the batching challenge.
pub proof fn lemma_open_matrix_shape(
    s1: Seq<HeightView>,
    s2: Seq<HeightView>,
    domain: CircleDomain,
    mat: MatrixView<M31>,
    points: Seq<Ext3>,
    mu1: Ext3,
    mu2: Ext3,
)
    requires
        same_shape(s1, s2),
        domain.log_n < s1.len(),
    ensures
        open_matrix_spec(s1, domain, mat, points, mu1) is Some <==> open_matrix_spec(
            s2,
            domain,
            mat,
            points,
            mu2,
        ) is Some,
        open_matrix_spec(s1, domain, mat, points, mu1) matches Some(after1) ==> same_shape(
            after1,
            open_matrix_spec(s2, domain, mat, points, mu2).unwrap(),
        ) && after1.len() == s1.len(),
{
    reveal(open_matrix_spec);
    let a1 = start_spec(s1, domain);
    let a2 = start_spec(s2, domain);
    assert(s1[domain.log_n as int].present == s2[domain.log_n as int].present);
    lemma_openings_whatever_challenge(a1, a2, domain, mat, points, mu1, mu2, points.len());
    lemma_open_points_len(a1, domain, mat, points, mu1, points.len());
    lemma_open_points_len(a2, domain, mat, points, mu2, points.len());
}

/// The shape of the accumulators after the openings of a round does not
/// depend on the batching challenge.
pub proof fn lemma_open_round_shape(
    s1: Seq<HeightView>,
    s2: Seq<HeightView>,
    domains: Seq<CircleDomain>,
    leaves: Seq<crate::mmcs::Leaf>,
    points_for_mats: Seq<Vec<Ext3>>,
    mu1: Ext3,
    mu2: Ext3,
    m: nat,
)
    requires
        same_shape(s1, s2),
        m <= domains.len(),
        forall|k: int| 0 <= k < domains.len() ==> (#[trigger] domains[k]).log_n < s1.len(),
    ensures
        open_round_spec(s1, domains, leaves, points_for_mats, mu1, m) is Some <==> open_round_spec(
            s2,
            domains,
            leaves,
            points_for_mats,
            mu2,
            m,
        ) is Some,
        open_round_spec(s1, domains, leaves, points_for_mats, mu1, m) matches Some(after1)
            ==> same_shape(
            after1,
            open_round_spec(s2, domains, leaves, points_for_mats, mu2, m).unwrap(),
        ) && after1.len() == s1.len(),
    decreases m,
{
    lemma_open_round_unfold(s1, domains, leaves, points_for_mats, mu1, 0);
    lemma_open_round_unfold(s2, domains, leaves, points_for_mats, mu2, 0);
    if m > 0 {
        let k = (m - 1) as nat;
        lemma_open_round_shape(s1, s2, domains, leaves, points_for_mats, mu1, mu2, k);
        lemma_open_round_unfold(s1, domains, leaves, points_for_mats, mu1, k);
        lemma_open_round_unfold(s2, domains, leaves, points_for_mats, mu2, k);
        let b1 = open_round_spec(s1, domains, leaves, points_for_mats, mu1, k);
        let b2 = open_round_spec(s2, domains, leaves, points_for_mats, mu2, k);
        if b1 is Some {
            lemma_open_matrix_shape(
                b1.unwrap(),
                b2.unwrap(),
                domains[k as int],
                leaf_view(leaves[k as int]),
                points_for_mats[k as int]@,
                mu1,
                mu2,
            );
        }
    }
}

/// The accumulator of one height, if a matrix of that height has been met.
pub struct HeightState {
    pub present: bool,
    pub acc: Accumulator,
}

/// The accumulator of one height as a mathematical value.
pub struct HeightView {
    pub present: bool,
    pub values: Seq<Ext3>,
    pub num_reduced: nat,
}

impl View for HeightState {
    type V = HeightView;

    open spec fn view(&self) -> HeightView {
        HeightView {
            present: self.present,
            values: self.acc.values@,
            num_reduced: self.acc.num_reduced as nat,
        }
    }
}

/// The accumulators by height as mathematical values.
pub open spec fn states_view(states: Seq<HeightState>) -> Seq<HeightView> {
    Seq::new(states.len(), |h: int| states[h]@)
}

/// Every accumulator that is present has the length of its height.
pub open spec fn states_wf(states: Seq<HeightView>) -> bool {
    forall|h: int|
        0 <= h < states.len() ==> ((#[trigger] states[h]).present ==> states[h].values.len()
            == vstd::arithmetic::power2::pow2(h as nat))
}

/// A vector of `n` zeros.
pub open spec fn zeros_spec(n: nat) -> Seq<Ext3> {
    Seq::new(n, |i: int| Ext3::zero_spec())
}

/// A vector of `n` zeros.
pub fn zeros(n: usize) -> (r: Vec<Ext3>)
    ensures
        r@ == zeros_spec(n as nat),
{
    let mut out: Vec<Ext3> = Vec::new();
    let mut i: usize = 0;
    while i < n
        invariant
            i <= n,
            out@.len() == i,
            forall|k: int| 0 <= k < i ==> out@[k] == Ext3::zero_spec(),
        decreases n - i,
    {
        out.push(Ext3::zero());
        i += 1;
    }
    proof {
        assert(out@ =~= zeros_spec(n as nat));
    }
    out
}

/// Where a matrix of the height of `domain` starts from: the accumulator of
/// that height, or zeros if there is none yet.
pub open spec fn start_spec(states: Seq<HeightView>, domain: CircleDomain) -> (Seq<Ext3>, nat) {
    let st = states[domain.log_n as int];
    if st.present {
        (st.values, st.num_reduced)
    } else {
        (zeros_spec(domain.size_spec()), st.num_reduced)
    }
}

/// What the openings of one matrix make of the accumulators.
#[verifier::opaque]
pub open spec fn open_matrix_spec(
    states: Seq<HeightView>,
    domain: CircleDomain,
    mat: MatrixView<M31>,
    points: Seq<Ext3>,
    mu: Ext3,
) -> Option<Seq<HeightView>> {
    match open_points_spec(start_spec(states, domain), domain, mat, points, mu, points.len()) {
        None => None,
        Some(after) => Some(
            states.update(
                domain.log_n as int,
                HeightView { present: true, values: after.0, num_reduced: after.1 },
            ),
        ),
    }
}

/// Opens a matrix at the given points and adds the openings to the
/// accumulator of its height.
pub fn open_matrix_into(
    states: &mut Vec<HeightState>,
    domain: CircleDomain,
    mat: &RowMajorMatrix<M31>,
    points: &Vec<Ext3>,
    mu: Ext3,
) -> (r: Option<Vec<Vec<Ext3>>>)
    requires
        domain.wf(),
        domain.log_n >= 1,
        domain.log_n < old(states)@.len(),
        mat.wf(),
        mat.height_spec() == domain.size_spec(),
        states_wf(states_view(old(states)@)),
    ensures
        final(states)@.len() == old(states)@.len(),
        r is Some <==> open_matrix_spec(states_view(old(states)@), domain, mat@, points@, mu) is Some,
        r matches Some(claims) ==> {
            &&& Some(states_view(final(states)@)) == open_matrix_spec(
                states_view(old(states)@),
                domain,
                mat@,
                points@,
                mu,
            )
            &&& states_wf(states_view(final(states)@))
            &&& claims@.len() == points@.len()
            &&& forall|p: int|
                0 <= p < points@.len() ==> (#[trigger] claims@[p])@ == claims_spec(
                    domain,
                    mat@,
                    opening_point_spec(domain, points@[p]).unwrap(),
                )
        },
{
    reveal(open_matrix_spec);
    let h = domain.log_n;
    let ghost before = states_view(states@);
    let start = if states[h].present {
        Accumulator {
            values: crate::util::copy_vec(&states[h].acc.values),
            num_reduced: states[h].acc.num_reduced,
        }
    } else {
        Accumulator { values: zeros(domain.size()), num_reduced: states[h].acc.num_reduced }
    };
    assert(before[h as int] == states@[h as int]@);
    assert((start.values@, start.num_reduced as nat) == start_spec(before, domain));
    match open_matrix(start, domain, mat, points, mu) {
        None => None,
        Some((claims, after)) => {
            let ghost shown = HeightView {
                present: true,
                values: after.values@,
                num_reduced: after.num_reduced as nat,
            };
            states[h] = HeightState { present: true, acc: after };
            proof {
                assert(states_view(states@) =~= before.update(h as int, shown));
            }
            Some(claims)
        },
    }
}

/// A committed matrix as a mathematical value.
pub open spec fn leaf_view(leaf: crate::mmcs::Leaf) -> MatrixView<M31> {
    MatrixView { values: crate::mmcs::elements_of(leaf.0), width: leaf.1 }
}

/// What the openings of the first `m` matrices of a round make of the
/// accumulators.
#[verifier::opaque]
pub open spec fn open_round_spec(
    states: Seq<HeightView>,
    domains: Seq<CircleDomain>,
    leaves: Seq<crate::mmcs::Leaf>,
    points_for_mats: Seq<Vec<Ext3>>,
    mu: Ext3,
    m: nat,
) -> Option<Seq<HeightView>>
    decreases m,
{
    if m == 0 {
        Some(states)
    } else {
        match open_round_spec(states, domains, leaves, points_for_mats, mu, (m - 1) as nat) {
            None => None,
            Some(before) => open_matrix_spec(
                before,
                domains[m - 1],
                leaf_view(leaves[m - 1]),
                points_for_mats[m - 1]@,
                mu,
            ),
        }
    }
}

/// What one more matrix makes of the openings of a round.
pub proof fn lemma_open_round_unfold(
    states: Seq<HeightView>,
    domains: Seq<CircleDomain>,
    leaves: Seq<crate::mmcs::Leaf>,
    points_for_mats: Seq<Vec<Ext3>>,
    mu: Ext3,
    m: nat,
)
    ensures
        open_round_spec(states, domains, leaves, points_for_mats, mu, 0) == Some(states),
        open_round_spec(states, domains, leaves, points_for_mats, mu, m + 1) == match open_round_spec(
            states,
            domains,
            leaves,
            points_for_mats,
            mu,
            m,
        ) {
            None => None,
            Some(before) => open_matrix_spec(
                before,
                domains[m as int],
                leaf_view(leaves[m as int]),
                points_for_mats[m as int]@,
                mu,
            ),
        },
{
    reveal_with_fuel(open_round_spec, 2);
}

/// Once a matrix has failed to open, the round has failed.
pub proof fn lemma_open_round_stays_failed(
    states: Seq<HeightView>,
    domains: Seq<CircleDomain>,
    leaves: Seq<crate::mmcs::Leaf>,
    points_for_mats: Seq<Vec<Ext3>>,
    mu: Ext3,
    m: nat,
    n: nat,
)
    requires
        m <= n,
        open_round_spec(states, domains, leaves, points_for_mats, mu, m) is None,
    ensures
        open_round_spec(states, domains, leaves, points_for_mats, mu, n) is None,
    decreases n - m,
{
    if m < n {
        lemma_open_round_stays_failed(states, domains, leaves, points_for_mats, mu, m, (n - 1) as nat);
        lemma_open_round_unfold(states, domains, leaves, points_for_mats, mu, (n - 1) as nat);
    }
}

} // verus!
