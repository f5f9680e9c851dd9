//! Quotients that turn a claim about the value of a polynomial at a point
//! outside its domain into a claim of low degree.

use vstd::prelude::*;
use crate::complex::Complex;
use crate::domain::{v_n, v_n_spec, CircleDomain};
use crate::extension::{Ext3, M31Algebra};
use crate::field::{pow, pow_spec, Field, Ring};
use crate::matrix::{column_spec, columnwise_dot_product, weighted_sum_spec, MatrixView, RowMajorMatrix};
use crate::mersenne31::M31;

verus! {

/// The denominator of the line through a point and its Frobenius
/// conjugate: the conjugate's second coordinate less the point's.
pub open spec fn frob_line_denominator_spec(point: Complex<Ext3>) -> Ext3 {
    point.im.frobenius_spec().minus_spec(point.im)
}

/// The value at `p` of the line that takes `value` at `point` and the
/// conjugate of `value` at the conjugate of `point`.
pub open spec fn frob_line_spec(point: Complex<Ext3>, value: Ext3, p: Complex<M31>) -> Ext3 {
    value.plus_spec(
        value.frobenius_spec().minus_spec(value).times_spec(
            point.im.negate_spec().plus_spec(Ext3::embed_spec(p.im)),
        ).times_spec(frob_line_denominator_spec(point).inverse_spec()),
    )
}

/// Evaluates at `p` the line through `(point, value)` and its Frobenius
/// conjugate, where the two have different second coordinates.
pub fn frob_line(point: Complex<Ext3>, value: Ext3, p: Complex<M31>) -> (r: Option<Ext3>)
    ensures
        r is Some <==> frob_line_denominator_spec(point) != Ext3::zero_spec(),
        r matches Some(v) ==> v == frob_line_spec(point, value, p),
{
    let denom = point.im.frobenius().minus(point.im);
    match denom.try_inverse() {
        None => None,
        Some(inv) => Some(
            value.plus(
                value.frobenius().minus(value).times(point.im.negate().plus(Ext3::embed(p.im)))
                    .times(inv),
            ),
        ),
    }
}

/// The polynomial of degree one in the coordinates of `p` that vanishes at
/// the two excluded points: the determinant of the three points with a
/// column of ones.
pub open spec fn pair_vanishing_spec<R: Ring>(
    excluded0: Complex<R>,
    excluded1: Complex<R>,
    p: Complex<R>,
) -> R {
    p.re.times_spec(excluded0.im).plus_spec(excluded0.re.times_spec(excluded1.im)).plus_spec(
        excluded1.re.times_spec(p.im),
    ).minus_spec(p.re.times_spec(excluded1.im)).minus_spec(excluded0.re.times_spec(p.im))
        .minus_spec(excluded1.re.times_spec(excluded0.im))
}

/// Evaluates at `p` the line through the two excluded points.
pub fn pair_vanishing<R: Ring>(excluded0: Complex<R>, excluded1: Complex<R>, p: Complex<R>) -> (r: R)
    ensures
        r == pair_vanishing_spec(excluded0, excluded1, p),
        r.canon() == r,
{
    p.re.times(excluded0.im).plus(excluded0.re.times(excluded1.im)).plus(
        excluded1.re.times(p.im),
    ).minus(p.re.times(excluded1.im)).minus(excluded0.re.times(p.im)).minus(
        excluded1.re.times(excluded0.im),
    )
}

/// The Frobenius conjugate of a point.
pub open spec fn frobenius_point_spec(zeta: Complex<Ext3>) -> Complex<Ext3> {
    Complex { re: zeta.re.frobenius_spec(), im: zeta.im.frobenius_spec() }
}

/// The denominator of the quotient at the domain point `x`.
pub open spec fn deep_denominator_spec(zeta: Complex<Ext3>, x: Complex<M31>) -> Ext3 {
    pair_vanishing_spec(zeta, frobenius_point_spec(zeta), x.lift_spec::<Ext3>())
}

/// One entry of the quotient: the value at `x` less the line through the
/// claim, over the line through `zeta` and its conjugate.
pub open spec fn deep_quotient_entry_spec(
    zeta: Complex<Ext3>,
    x: Complex<M31>,
    p_at_x: M31,
    p_at_zeta: Ext3,
) -> Ext3 {
    frob_line_spec(zeta, p_at_zeta, x).negate_spec().plus_spec(Ext3::embed_spec(p_at_x)).times_spec(
        deep_denominator_spec(zeta, x).inverse_spec(),
    )
}

/// Whether the quotient is defined at every point of the domain: `zeta` is
/// not its own conjugate, and the line through the two misses the domain.
pub open spec fn deep_quotient_defined(domain: CircleDomain, zeta: Complex<Ext3>) -> bool {
    &&& frob_line_denominator_spec(zeta) != Ext3::zero_spec()
    &&& forall|i: nat|
        i < domain.size_spec() ==> #[trigger] deep_denominator_spec(zeta, domain.point_spec(i))
            != Ext3::zero_spec()
}

/// One row of the quotient, at the domain point `x`.
pub fn deep_quotient_row(
    zeta: Complex<Ext3>,
    x: Complex<M31>,
    row: &Vec<M31>,
    ps_at_zeta: &Vec<Ext3>,
) -> (r: Option<Vec<Ext3>>)
    requires
        row@.len() > 0,
        ps_at_zeta@.len() == row@.len(),
    ensures
        r is Some <==> frob_line_denominator_spec(zeta) != Ext3::zero_spec()
            && deep_denominator_spec(zeta, x) != Ext3::zero_spec(),
        r matches Some(q) ==> q@.len() == row@.len() && forall|c: int|
            0 <= c < row@.len() ==> #[trigger] q@[c] == deep_quotient_entry_spec(
                zeta,
                x,
                row@[c],
                ps_at_zeta@[c],
            ),
{
    let conj = Complex { re: zeta.re.frobenius(), im: zeta.im.frobenius() };
    let denom = pair_vanishing(zeta, conj, x.lift::<Ext3>());
    let inv = match denom.try_inverse() {
        None => {
            return None;
        },
        Some(inv) => inv,
    };
    let mut out: Vec<Ext3> = Vec::new();
    let mut c: usize = 0;
    while c < row.len()
        invariant
            ps_at_zeta@.len() == row@.len(),
            c <= row@.len(),
            inv == deep_denominator_spec(zeta, x).inverse_spec(),
            out@.len() == c,
            c > 0 ==> frob_line_denominator_spec(zeta) != Ext3::zero_spec(),
            forall|k: int|
                0 <= k < c ==> #[trigger] out@[k] == deep_quotient_entry_spec(
                    zeta,
                    x,
                    row@[k],
                    ps_at_zeta@[k],
                ),
        decreases row@.len() - c,
    {
        let line = match frob_line(zeta, ps_at_zeta[c], x) {
            None => {
                return None;
            },
            Some(line) => line,
        };
        out.push(line.negate().plus(Ext3::embed(row[c])).times(inv));
        c += 1;
    }
    Some(out)
}

/// The quotients of the columns of `p`, the values of polynomials on
/// `domain`, by the claims `ps_at_zeta` of their values at `zeta`.
pub fn deep_quotient(
    domain: CircleDomain,
    p: &RowMajorMatrix<M31>,
    zeta: Complex<Ext3>,
    ps_at_zeta: &Vec<Ext3>,
) -> (r: Option<RowMajorMatrix<Ext3>>)
    requires
        domain.wf(),
        p.wf(),
        p.height_spec() == domain.size_spec(),
        ps_at_zeta@.len() == p.width,
    ensures
        r is Some <==> deep_quotient_defined(domain, zeta),
        r matches Some(q) ==> {
            &&& q.width == p.width
            &&& q.wf()
            &&& q.height_spec() == p.height_spec()
            &&& forall|i: int, c: int|
                0 <= i < p.height_spec() && 0 <= c < p.width ==> #[trigger] q.entry(i, c)
                    == deep_quotient_entry_spec(
                    zeta,
                    domain.point_spec(i as nat),
                    p.entry(i, c),
                    ps_at_zeta@[c],
                )
        },
{
    let points = domain.points();
    let h = p.height();
    let w = p.width;
    let count = p.values.len();
    proof {
        lemma_pow2_pos_size(domain);
        p.lemma_entry_in_bounds(0, 0);
        let n = p.values@.len() as int;
        vstd::arithmetic::div_mod::lemma_fundamental_div_mod(n, w as int);
        assert(h * w == w * h) by (nonlinear_arith);
        assert(h * w == n);
    }
    let mut rows: Vec<Vec<Ext3>> = Vec::new();
    let mut i: usize = 0;
    while i < h
        invariant
            domain.wf(),
            p.wf(),
            h == p.height_spec(),
            h == domain.size_spec(),
            w == p.width,
            w > 0,
            h * w <= usize::MAX,
            ps_at_zeta@.len() == w,
            points@ == domain.points_spec(),
            i <= h,
            rows@.len() == i,
            i > 0 ==> frob_line_denominator_spec(zeta) != Ext3::zero_spec(),
            forall|k: nat|
                k < i ==> #[trigger] deep_denominator_spec(zeta, domain.point_spec(k))
                    != Ext3::zero_spec(),
            forall|k: int| 0 <= k < i ==> (#[trigger] rows@[k])@.len() == w,
            forall|k: int, c: int|
                0 <= k < i && 0 <= c < w ==> #[trigger] rows@[k]@[c] == deep_quotient_entry_spec(
                    zeta,
                    domain.point_spec(k as nat),
                    p.entry(k, c),
                    ps_at_zeta@[c],
                ),
        decreases h - i,
    {
        let row = p.row(i);
        proof {
            assert forall|c: int| 0 <= c < w implies row@[c] == p.entry(i as int, c) by {
                p.lemma_entry_in_bounds(i as int, c);
            }
        }
        match deep_quotient_row(zeta, points[i], &row, ps_at_zeta) {
            None => {
                assert(frob_line_denominator_spec(zeta) == Ext3::zero_spec() || deep_denominator_spec(
                    zeta,
                    domain.point_spec(i as nat),
                ) == Ext3::zero_spec());
                return None;
            },
            Some(q) => {
                rows.push(q);
            },
        }
        i += 1;
    }
    Some(crate::matrix::from_rows(&rows, w))
}

/// A domain has a point.
pub proof fn lemma_pow2_pos_size(domain: CircleDomain)
    ensures
        domain.size_spec() > 0,
{
    vstd::arithmetic::power2::lemma_pow2_pos(domain.log_n as nat);
}

/// The sum over the first `n` columns of `mu^k` times the value at the
/// domain point less the claimed value at `zeta`.
pub open spec fn reduce_row_spec<EF: M31Algebra>(row: Seq<M31>, ps_at_zeta: Seq<EF>, mu: EF, n: nat) -> EF
    decreases n,
{
    if n == 0 {
        EF::zero_spec()
    } else {
        reduce_row_spec(row, ps_at_zeta, mu, (n - 1) as nat).plus_spec(
            pow_spec(mu, (n - 1) as nat).times_spec(
                ps_at_zeta[n - 1].negate_spec().plus_spec(EF::embed_spec(row[n - 1])),
            ),
        )
    }
}

/// Reduces one row and its claims to one value with the powers of `mu`.
pub fn reduce_row<EF: M31Algebra>(row: &Vec<M31>, ps_at_zeta: &Vec<EF>, mu: EF) -> (r: EF)
    requires
        ps_at_zeta@.len() == row@.len(),
    ensures
        r == reduce_row_spec(row@, ps_at_zeta@, mu, row@.len()),
        r.canon() == r,
{
    let mut acc = EF::zero();
    let mut mu_pow = EF::one();
    let mut k: usize = 0;
    while k < row.len()
        invariant
            ps_at_zeta@.len() == row@.len(),
            k <= row@.len(),
            mu_pow == pow_spec(mu, k as nat),
            acc == reduce_row_spec(row@, ps_at_zeta@, mu, k as nat),
            acc.canon() == acc,
        decreases row@.len() - k,
    {
        acc = acc.plus(mu_pow.times(ps_at_zeta[k].negate().plus(EF::embed(row[k]))));
        mu_pow = mu_pow.times(mu);
        k += 1;
    }
    acc
}

/// The number that vanishes where the domain point `x` is `zeta`: one less
/// `x` rotated back by `zeta`.
pub open spec fn v_gamma_spec<EF: M31Algebra>(x: Complex<M31>, zeta: Complex<EF>) -> Complex<EF> {
    let r = x.lift_spec::<EF>().rotate_spec(zeta.conjugate_spec());
    Complex { re: EF::one_spec().minus_spec(r.re), im: r.im }
}

/// The numerator of the factor of a row: `re - mu_pow_width * im`.
pub open spec fn lhs_num_spec<EF: M31Algebra>(x: Complex<M31>, zeta: Complex<EF>, mu_pow_width: EF) -> EF {
    let v = v_gamma_spec(x, zeta);
    v.re.minus_spec(mu_pow_width.times_spec(v.im))
}

/// The denominator of the factor of a row: `re^2 + im^2`.
pub open spec fn lhs_denom_spec<EF: M31Algebra>(x: Complex<M31>, zeta: Complex<EF>) -> EF {
    v_gamma_spec(x, zeta).norm_spec()
}

/// The factor of a row: the inverse of the number that vanishes where `x`
/// is `zeta`, its two parts taken together with `mu_pow_width`.
pub open spec fn lhs_spec<EF: M31Algebra>(x: Complex<M31>, zeta: Complex<EF>, mu_pow_width: EF) -> EF {
    lhs_num_spec(x, zeta, mu_pow_width).times_spec(lhs_denom_spec(x, zeta).inverse_spec())
}

/// The factor of a row, where its denominator is not zero.
pub fn lhs<EF: M31Algebra>(x: Complex<M31>, zeta: Complex<EF>, mu_pow_width: EF) -> (r: Option<EF>)
    ensures
        r is Some <==> lhs_denom_spec(x, zeta) != EF::zero_spec(),
        r matches Some(v) ==> v == lhs_spec(x, zeta, mu_pow_width),
{
    let rot = x.lift::<EF>().rotate(zeta.conjugate());
    let v = Complex { re: EF::one().minus(rot.re), im: rot.im };
    let denom = v.norm();
    match denom.try_inverse() {
        None => None,
        Some(inv) => Some(v.re.minus(mu_pow_width.times(v.im)).times(inv)),
    }
}

/// Whether no point of the domain is `zeta`.
pub open spec fn reduce_defined<EF: M31Algebra>(domain: CircleDomain, zeta: Complex<EF>) -> bool {
    forall|i: nat|
        i < domain.size_spec() ==> #[trigger] lhs_denom_spec(domain.point_spec(i), zeta)
            != EF::zero_spec()
}

/// One entry of the reduced vector: the factor of the row times the row
/// reduced with the powers of `mu`.
pub open spec fn reduce_entry_spec<EF: M31Algebra>(
    x: Complex<M31>,
    row: Seq<M31>,
    zeta: Complex<EF>,
    ps_at_zeta: Seq<EF>,
    mu: EF,
) -> EF {
    lhs_spec(x, zeta, pow_spec(mu, row.len())).times_spec(
        reduce_row_spec(row, ps_at_zeta, mu, row.len()),
    )
}

/// Reduces the columns of `p` and the claims of their values at `zeta` to
/// one vector: row by row, the quotient of the difference by the number
/// that vanishes at `zeta`, the columns weighted by the powers of `mu`.
pub fn reduce_matrix<EF: M31Algebra>(
    domain: CircleDomain,
    p: &RowMajorMatrix<M31>,
    zeta: Complex<EF>,
    ps_at_zeta: &Vec<EF>,
    mu: EF,
) -> (r: Option<Vec<EF>>)
    requires
        domain.wf(),
        p.wf(),
        p.height_spec() == domain.size_spec(),
        ps_at_zeta@.len() == p.width,
    ensures
        r is Some <==> reduce_defined(domain, zeta),
        r matches Some(v) ==> v@.len() == p.height_spec() && forall|i: int|
            0 <= i < v@.len() ==> #[trigger] v@[i] == reduce_entry_spec(
                domain.point_spec(i as nat),
                p.row_spec(i),
                zeta,
                ps_at_zeta@,
                mu,
            ),
{
    let points = domain.points();
    let h = p.height();
    let mu_pow_width = pow(mu, p.width as u64);
    let mut out: Vec<EF> = Vec::new();
    let mut i: usize = 0;
    while i < h
        invariant
            domain.wf(),
            p.wf(),
            h == p.height_spec(),
            h == domain.size_spec(),
            ps_at_zeta@.len() == p.width,
            points@ == domain.points_spec(),
            mu_pow_width == pow_spec(mu, p.width as nat),
            i <= h,
            out@.len() == i,
            forall|k: nat|
                k < i ==> #[trigger] lhs_denom_spec(domain.point_spec(k), zeta) != EF::zero_spec(),
            forall|k: int|
                0 <= k < i ==> #[trigger] out@[k] == reduce_entry_spec(
                    domain.point_spec(k as nat),
                    p.row_spec(k),
                    zeta,
                    ps_at_zeta@,
                    mu,
                ),
        decreases h - i,
    {
        let row = p.row(i);
        match lhs(points[i], zeta, mu_pow_width) {
            None => {
                return None;
            },
            Some(factor) => {
                out.push(factor.times(reduce_row(&row, ps_at_zeta, mu)));
            },
        }
        i += 1;
    }
    Some(out)
}

/// The weights by which the part of a vector that is not of low degree is
/// found: the vanishing polynomial of the domain of `2^(log_n - rate_bits)`
/// points, at the points of `domain`.
pub open spec fn v_d_spec(domain: CircleDomain, rate_bits: nat, i: nat) -> M31 {
    v_n_spec(domain.point_spec(i).re, (domain.log_n - rate_bits) as nat)
}

/// The sum of the squares of the first `n` weights.
pub open spec fn v_d_norm_spec(domain: CircleDomain, rate_bits: nat, n: nat) -> M31
    decreases n,
{
    if n == 0 {
        M31::zero_spec()
    } else {
        v_d_norm_spec(domain, rate_bits, (n - 1) as nat).plus_spec(
            v_d_spec(domain, rate_bits, (n - 1) as nat).times_spec(
                v_d_spec(domain, rate_bits, (n - 1) as nat),
            ),
        )
    }
}

/// The weights as a sequence over a field that holds them.
pub open spec fn v_d_seq_spec<EF: M31Algebra>(domain: CircleDomain, rate_bits: nat) -> Seq<EF> {
    Seq::new(domain.size_spec(), |i: int| EF::embed_spec(v_d_spec(domain, rate_bits, i as nat)))
}

/// The coefficient of the weights in column `c`: the column's sum weighted
/// by them, over the sum of their squares.
pub open spec fn lambda_spec<EF: M31Algebra>(
    domain: CircleDomain,
    lde: MatrixView<EF>,
    rate_bits: nat,
    c: int,
) -> EF {
    weighted_sum_spec(v_d_seq_spec::<EF>(domain, rate_bits), column_spec(lde, c), lde.height_spec())
        .times_spec(
        EF::embed_spec(v_d_norm_spec(domain, rate_bits, domain.size_spec())).inverse_spec(),
    )
}

/// Takes out of every column of `lde` its multiple of the weights, and
/// returns the coefficients taken out. Where the weights have no length,
/// nothing is taken out and `None` is returned.
pub fn extract_lambda<EF: M31Algebra>(
    domain: CircleDomain,
    lde: &mut RowMajorMatrix<EF>,
    rate_bits: usize,
) -> (r: Option<Vec<EF>>)
    requires
        domain.wf(),
        old(lde).wf(),
        old(lde).height_spec() == domain.size_spec(),
        rate_bits <= domain.log_n,
    ensures
        r is Some <==> EF::embed_spec(v_d_norm_spec(domain, rate_bits as nat, domain.size_spec()))
            != EF::zero_spec(),
        r is None ==> *final(lde) == *old(lde),
        final(lde).width == old(lde).width,
        final(lde).values@.len() == old(lde).values@.len(),
        r matches Some(lambdas) ==> {
            &&& lambdas@.len() == old(lde).width
            &&& forall|c: int|
                0 <= c < lambdas@.len() ==> #[trigger] lambdas@[c] == lambda_spec(
                    domain,
                    old(lde)@,
                    rate_bits as nat,
                    c,
                )
            &&& forall|i: int, c: int|
                0 <= i < old(lde).height_spec() && 0 <= c < old(lde).width
                    ==> #[trigger] final(lde).entry(i, c) == old(lde).entry(i, c).minus_spec(
                    lambdas@[c].times_spec(EF::embed_spec(v_d_spec(domain, rate_bits as nat, i as nat))),
                )
        },
{
    let points = domain.points();
    let h = lde.height();
    let w = lde.width;
    let log_src = domain.log_n - rate_bits;
    let mut v_d: Vec<EF> = Vec::new();
    let mut norm = M31::zero();
    let mut i: usize = 0;
    while i < h
        invariant
            domain.wf(),
            h == domain.size_spec(),
            points@ == domain.points_spec(),
            log_src == domain.log_n - rate_bits,
            i <= h,
            v_d@.len() == i,
            norm == v_d_norm_spec(domain, rate_bits as nat, i as nat),
            forall|k: int|
                0 <= k < i ==> #[trigger] v_d@[k] == EF::embed_spec(
                    v_d_spec(domain, rate_bits as nat, k as nat),
                ),
        decreases h - i,
    {
        let v = v_n(points[i].re, log_src);
        norm = norm.plus(v.times(v));
        v_d.push(EF::embed(v));
        i += 1;
    }
    proof {
        assert(v_d@ =~= v_d_seq_spec::<EF>(domain, rate_bits as nat));
    }
    let inv = match EF::embed(norm).try_inverse() {
        None => {
            return None;
        },
        Some(inv) => inv,
    };
    let dots = columnwise_dot_product(lde, &v_d);
    let mut lambdas: Vec<EF> = Vec::new();
    let mut c: usize = 0;
    while c < w
        invariant
            w == lde.width,
            dots@.len() == w,
            c <= w,
            lambdas@.len() == c,
            forall|k: int| 0 <= k < c ==> #[trigger] lambdas@[k] == dots@[k].times_spec(inv),
        decreases w - c,
    {
        lambdas.push(dots[c].times(inv));
        c += 1;
    }
    let mut rows: Vec<Vec<EF>> = Vec::new();
    let count = lde.values.len();
    proof {
        if w > 0 {
            vstd::arithmetic::div_mod::lemma_fundamental_div_mod(count as int, w as int);
            assert(h * w == w * h) by (nonlinear_arith);
        }
    }
    if w == 0 {
        return Some(lambdas);
    }
    let mut r: usize = 0;
    while r < h
        invariant
            lde.wf(),
            *lde == *old(lde),
            h == lde.height_spec(),
            w == lde.width,
            w > 0,
            h * w <= usize::MAX,
            v_d@.len() == h,
            lambdas@.len() == w,
            r <= h,
            rows@.len() == r,
            forall|k: int| 0 <= k < r ==> (#[trigger] rows@[k])@.len() == w,
            forall|k: int, c: int|
                0 <= k < r && 0 <= c < w ==> #[trigger] rows@[k]@[c] == lde.entry(k, c).minus_spec(
                    lambdas@[c].times_spec(v_d@[k]),
                ),
        decreases h - r,
    {
        let mut row: Vec<EF> = Vec::new();
        let mut c: usize = 0;
        while c < w
            invariant
                lde.wf(),
                r < h,
                h == lde.height_spec(),
                w == lde.width,
                v_d@.len() == h,
                lambdas@.len() == w,
                c <= w,
                row@.len() == c,
                forall|k: int|
                    0 <= k < c ==> #[trigger] row@[k] == lde.entry(r as int, k).minus_spec(
                        lambdas@[k].times_spec(v_d@[r as int]),
                    ),
            decreases w - c,
        {
            row.push(lde.get(r, c).minus(lambdas[c].times(v_d[r])));
            c += 1;
        }
        rows.push(row);
        r += 1;
    }
    let updated = crate::matrix::from_rows(&rows, w);
    *lde = updated;
    Some(lambdas)
}

} // verus!
