//! Evaluation domains on the circle `x^2 + y^2 = 1` over the Mersenne-31
//! field: twin cosets of the subgroups of two-power order.

use vstd::prelude::*;
use vstd::arithmetic::power2::{pow2, lemma_pow2_unfold};
use crate::complex::Complex;
use crate::extension::M31Algebra;
use crate::field::{Field, Ring};
use crate::mersenne31::M31;
use crate::util::pow2_usize;

verus! {

/// The largest `k` for which the circle group has a subgroup of order `2^k`.
pub const CIRCLE_TWO_ADICITY: usize = 31;

/// A generator of the circle group, which has order `2^31`.
pub open spec fn circle_generator_spec() -> Complex<M31> {
    Complex { re: M31 { value: 311_014_874 }, im: M31 { value: 1_584_694_829 } }
}

/// The generator of the subgroup of order `2^bits`: the generator of the
/// whole group doubled `31 - bits` times.
pub open spec fn circle_two_adic_generator_spec(bits: nat) -> Complex<M31> {
    circle_generator_spec().double_times_spec((31 - bits) as nat)
}

pub fn circle_two_adic_generator(bits: usize) -> (r: Complex<M31>)
    requires
        bits <= CIRCLE_TWO_ADICITY,
    ensures
        r == circle_two_adic_generator_spec(bits as nat),
{
    let base = Complex {
        re: M31 { value: 311_014_874 },
        im: M31 { value: 1_584_694_829 },
    };
    base.double_times(CIRCLE_TWO_ADICITY - bits)
}

/// `start` rotated `k` times by `step`.
pub open spec fn coset_point_spec(
    start: Complex<M31>,
    step: Complex<M31>,
    k: nat,
) -> Complex<M31>
    decreases k,
{
    if k == 0 {
        start
    } else {
        coset_point_spec(start, step, (k - 1) as nat).rotate_spec(step)
    }
}

/// The map `x -> 2 x^2 - 1`: the first coordinate of a doubled point.
pub open spec fn double_x_spec<F: Field>(x: F) -> F {
    x.times_spec(x).plus_spec(x.times_spec(x)).minus_spec(F::one_spec())
}

/// The doubling map applied `log_n - 1` times to `x`. On the first
/// coordinate of a point it vanishes exactly on the standard domain of
/// `2^log_n` points.
pub open spec fn v_n_spec<F: Field>(x: F, log_n: nat) -> F
    decreases log_n,
{
    if log_n <= 1 {
        x
    } else {
        double_x_spec(v_n_spec(x, (log_n - 1) as nat))
    }
}

pub fn v_n<F: Field>(x: F, log_n: usize) -> (r: F)
    ensures
        r == v_n_spec(x, log_n as nat),
{
    let mut acc = x;
    let mut i: usize = 1;
    while i < log_n
        invariant
            1 <= i,
            i <= log_n || (log_n == 0 && i == 1),
            acc == v_n_spec(x, i as nat),
        decreases log_n - i,
    {
        let sq = acc.times(acc);
        acc = sq.plus(sq).minus(F::one());
        i += 1;
    }
    acc
}

/// The point of the circle with parameter `t`, if `1 + t^2` is not zero:
/// `((1 - t^2) / (1 + t^2), 2 t / (1 + t^2))`.
pub open spec fn univariate_to_point_spec<F: Field>(t: F) -> Option<Complex<F>> {
    let t2 = t.times_spec(t);
    let denom = F::one_spec().plus_spec(t2);
    if denom == F::zero_spec() {
        None
    } else {
        let inv = denom.inverse_spec();
        Some(
            Complex {
                re: F::one_spec().minus_spec(t2).times_spec(inv),
                im: t.plus_spec(t).times_spec(inv),
            },
        )
    }
}

pub fn univariate_to_point<F: Field>(t: F) -> (r: Option<Complex<F>>)
    ensures
        r == univariate_to_point_spec(t),
{
    let t2 = t.times(t);
    let denom = F::one().plus(t2);
    proof {
        F::lemma_results_reduced(F::one_spec(), t2, 0);
    }
    match denom.try_inverse() {
        None => None,
        Some(inv) => Some(Complex { re: F::one().minus(t2).times(inv), im: t.plus(t).times(inv) }),
    }
}

/// A domain of `2^log_n` points: the coset of `shift` and the coset of its
/// conjugate under the subgroup of order `2^(log_n - 1)`, interleaved.
#[derive(Clone, Copy, PartialEq, Eq, Structural, Debug)]
pub struct CircleDomain {
    pub log_n: usize,
    pub shift: Complex<M31>,
}

impl CircleDomain {
    /// The size exponent is one for which the circle group has the cosets.
    pub open spec fn wf(self) -> bool {
        self.log_n < CIRCLE_TWO_ADICITY
    }

    /// The number of points.
    pub open spec fn size_spec(self) -> nat {
        pow2(self.log_n as nat)
    }

    /// The generator of the subgroup whose cosets make up the domain.
    pub open spec fn gen_spec(self) -> Complex<M31> {
        circle_two_adic_generator_spec((self.log_n - 1) as nat)
    }

    /// Point `i` in natural order: the even positions walk the coset of
    /// `shift`, the odd ones the coset of its conjugate, one step ahead.
    pub open spec fn point_spec(self, i: nat) -> Complex<M31> {
        if self.log_n == 0 {
            self.shift
        } else if i % 2 == 0 {
            coset_point_spec(self.shift, self.gen_spec(), i / 2)
        } else {
            coset_point_spec(
                self.shift.conjugate_spec().rotate_spec(self.gen_spec()),
                self.gen_spec(),
                i / 2,
            )
        }
    }

    /// The points in natural order.
    pub open spec fn points_spec(self) -> Seq<Complex<M31>> {
        Seq::new(self.size_spec(), |i: int| self.point_spec(i as nat))
    }

    pub fn new(log_n: usize, shift: Complex<M31>) -> (r: Self)
        requires
            log_n < CIRCLE_TWO_ADICITY,
        ensures
            r == (CircleDomain { log_n, shift }),
            r.wf(),
    {
        CircleDomain { log_n, shift }
    }

    /// The standard domain of `2^log_n` points: its shift generates the
    /// subgroup of twice that order.
    pub open spec fn standard_spec(log_n: usize) -> Self {
        CircleDomain { log_n, shift: circle_two_adic_generator_spec((log_n + 1) as nat) }
    }

    pub fn standard(log_n: usize) -> (r: Self)
        requires
            log_n < CIRCLE_TWO_ADICITY,
        ensures
            r == Self::standard_spec(log_n),
            r.wf(),
    {
        CircleDomain { log_n, shift: circle_two_adic_generator(log_n + 1) }
    }

    /// Whether the two domains have the same size and the same shift.
    pub fn same(&self, other: &Self) -> (r: bool)
        ensures
            r == (self.log_n == other.log_n && self.shift.re.canon() == other.shift.re.canon()
                && self.shift.im.canon() == other.shift.im.canon()),
    {
        self.log_n == other.log_n && self.shift.re.same(other.shift.re) && self.shift.im.same(
            other.shift.im,
        )
    }

    pub fn size(&self) -> (r: usize)
        requires
            self.wf(),
        ensures
            r == self.size_spec(),
            r >= 1,
    {
        proof {
            vstd::bits::lemma_usize_pow2_no_overflow(self.log_n as nat);
        }
        pow2_usize(self.log_n)
    }

    /// The points of the domain in natural order.
    pub fn points(&self) -> (r: Vec<Complex<M31>>)
        requires
            self.wf(),
        ensures
            r@ == self.points_spec(),
            r@.len() == self.size_spec(),
    {
        let n = self.size();
        let mut out: Vec<Complex<M31>> = Vec::new();
        if self.log_n == 0 {
            out.push(self.shift);
            proof {
                vstd::arithmetic::power2::lemma2_to64();
                assert(out@ =~= self.points_spec());
            }
            return out;
        }
        let g = circle_two_adic_generator(self.log_n - 1);
        let ghost b0 = self.shift.conjugate_spec().rotate_spec(g);
        let mut a = self.shift;
        let mut b = self.shift.conjugate().rotate(g);
        let half = n / 2;
        proof {
            lemma_pow2_unfold(self.log_n as nat);
        }
        let mut k: usize = 0;
        while k < half
            invariant
                self.wf(),
                self.log_n > 0,
                n == self.size_spec(),
                n == 2 * half,
                k <= half,
                g == self.gen_spec(),
                b0 == self.shift.conjugate_spec().rotate_spec(g),
                a == coset_point_spec(self.shift, g, k as nat),
                b == coset_point_spec(b0, g, k as nat),
                out@.len() == 2 * k,
                forall|i: int| 0 <= i < 2 * k ==> out@[i] == self.point_spec(i as nat),
            decreases half - k,
        {
            proof {
                assert((2 * k) % 2 == 0 && (2 * k) / 2 == k);
                assert((2 * k + 1) % 2 == 1 && (2 * k + 1) / 2 == k);
                assert(self.point_spec((2 * k) as nat) == a);
                assert(self.point_spec((2 * k + 1) as nat) == b);
            }
            out.push(a);
            out.push(b);
            a = a.rotate(g);
            b = b.rotate(g);
            k += 1;
        }
        proof {
            assert(out@ =~= self.points_spec());
        }
        out
    }

    /// Point `i` of the domain in natural order.
    pub fn point(&self, i: usize) -> (r: Complex<M31>)
        requires
            self.wf(),
        ensures
            r == self.point_spec(i as nat),
    {
        if self.log_n == 0 {
            return self.shift;
        }
        let g = circle_two_adic_generator(self.log_n - 1);
        let start = if i % 2 == 0 {
            self.shift
        } else {
            self.shift.conjugate().rotate(g)
        };
        let steps = i / 2;
        let mut acc = start;
        let mut k: usize = 0;
        while k < steps
            invariant
                k <= steps,
                acc == coset_point_spec(start, g, k as nat),
            decreases steps - k,
        {
            acc = acc.rotate(g);
            k += 1;
        }
        acc
    }

    /// The value at `point` of the polynomial that vanishes on the domain:
    /// `v_n` of the point less `v_n` of the shift.
    pub open spec fn vanishing_spec<EF: M31Algebra>(self, point: Complex<EF>) -> EF {
        v_n_spec(point.re, self.log_n as nat).minus_spec(
            EF::embed_spec(v_n_spec(self.shift.re, self.log_n as nat)),
        )
    }

    pub fn vanishing<EF: M31Algebra>(&self, point: Complex<EF>) -> (r: EF)
        ensures
            r == self.vanishing_spec(point),
    {
        v_n(point.re, self.log_n).minus(EF::embed(v_n(self.shift.re, self.log_n)))
    }

    /// The common factor of the denominators of the Lagrange basis: the
    /// number of points times the second coordinate of the shift doubled
    /// `log_n - 1` times.
    pub open spec fn normalizer_spec<EF: M31Algebra>(self) -> EF {
        EF::from_u64_spec(self.size_spec() as u64).times_spec(
            EF::embed_spec(self.shift.double_times_spec((self.log_n - 1) as nat).im),
        )
    }

    /// `point` rotated back by point `i` of the domain.
    pub open spec fn offset_spec<EF: M31Algebra>(self, point: Complex<EF>, i: nat) -> Complex<
        EF,
    > {
        point.rotate_spec(self.point_spec(i).lift_spec::<EF>().conjugate_spec())
    }

    /// The denominator of basis function `i` at `point`. It is zero where
    /// `point` is point `i` of the domain or the point opposite to it.
    pub open spec fn basis_denominator_spec<EF: M31Algebra>(
        self,
        point: Complex<EF>,
        i: nat,
    ) -> EF {
        self.normalizer_spec::<EF>().times_spec(self.offset_spec(point, i).im)
    }

    /// Basis function `i` at `point`, without the factor that vanishes on
    /// the domain: with `(x, y)` the point rotated back by point `i`,
    /// `(1 + x) / (n s y)`, negated at the even positions.
    pub open spec fn basis_spec<EF: M31Algebra>(self, point: Complex<EF>, i: nat) -> EF {
        let q = EF::one_spec().plus_spec(self.offset_spec(point, i).re).times_spec(
            self.basis_denominator_spec(point, i).inverse_spec(),
        );
        if i % 2 == 0 {
            q.negate_spec()
        } else {
            q
        }
    }

    /// Whether every basis function has a denominator other than zero at `point`.
    #[verifier::opaque]
    pub open spec fn basis_defined_spec<EF: M31Algebra>(self, point: Complex<EF>) -> bool {
        forall|i: nat|
            i < self.size_spec() ==> #[trigger] self.basis_denominator_spec(point, i)
                != EF::zero_spec()
    }

    /// The weights by which the values on the domain of a polynomial of the
    /// domain's degree give its value at `point`, up to the factor
    /// `vanishing(point)`; `None` where a denominator vanishes.
    pub fn lagrange_basis<EF: M31Algebra>(&self, point: Complex<EF>) -> (r: Option<Vec<EF>>)
        requires
            self.wf(),
            self.log_n >= 1,
        ensures
            r is Some <==> self.basis_defined_spec(point),
            r matches Some(v) ==> v@.len() == self.size_spec() && forall|i: int|
                0 <= i < v@.len() ==> #[trigger] v@[i] == self.basis_spec(point, i as nat),
    {
        reveal(CircleDomain::basis_defined_spec);
        let pts = self.points();
        let n = pts.len();
        let y_s = self.shift.double_times(self.log_n - 1).im;
        let norm = EF::from_u64(n as u64).times(EF::embed(y_s));
        let mut out: Vec<EF> = Vec::new();
        let mut i: usize = 0;
        while i < n
            invariant
                self.wf(),
                i <= n,
                n == self.size_spec(),
                pts@ == self.points_spec(),
                norm == self.normalizer_spec::<EF>(),
                out@.len() == i,
                forall|k: nat|
                    k < i ==> #[trigger] self.basis_denominator_spec(point, k) != EF::zero_spec(),
                forall|k: int| 0 <= k < i ==> #[trigger] out@[k] == self.basis_spec(point, k as nat),
            decreases n - i,
        {
            let off = point.rotate(pts[i].lift::<EF>().conjugate());
            let denom = norm.times(off.im);
            proof {
                reveal(CircleDomain::basis_defined_spec);
                EF::lemma_results_reduced(norm, off.im, 0);
                assert(denom == self.basis_denominator_spec(point, i as nat));
            }
            match denom.try_inverse() {
                None => {
                    return None;
                },
                Some(inv) => {
                    let q = EF::one().plus(off.re).times(inv);
                    if i % 2 == 0 {
                        out.push(q.negate());
                    } else {
                        out.push(q);
                    }
                },
            }
            i += 1;
        }
        proof {
            reveal(CircleDomain::basis_defined_spec);
        }
        Some(out)
    }
}

} // verus!
