//! The cubic extension of the Mersenne-31 field by a cube root of five.

use vstd::prelude::*;
use crate::field::{Field, Ring};
use crate::mersenne31::M31;
use p3_field::PrimeField32;
use p3_field::BasedVectorSpace;
use p3_field::extension::BinomialExtensionField;

verus! {

/// A field that holds the Mersenne-31 field.
pub trait M31Algebra: Field {
    /// The base field element `b` as an element of this field, reduced.
    spec fn embed_spec(b: M31) -> Self;

    fn embed(b: M31) -> (r: Self)
        ensures
            r == Self::embed_spec(b),
            r.canon() == r,
    ;
}

/// The element of the base field whose cube root is adjoined.
pub open spec fn w_spec() -> M31 {
    M31 { value: 5 }
}

/// `w_spec()` to the power `(P - 1) / 3`: the factor by which the Frobenius
/// map scales the coefficient of the adjoined root.
pub open spec fn dth_root_spec() -> M31 {
    M31 { value: 1513477735 }
}

/// `c0 + c1 X + c2 X^2` modulo `X^3 - 5`, over the Mersenne-31 field.
#[derive(Clone, Copy, PartialEq, Eq, Structural, Debug, Hash)]
pub struct Ext3 {
    pub c0: M31,
    pub c1: M31,
    pub c2: M31,
}

/// The reduced coefficients of the inverse that `p3_field::Field::try_inverse`
/// returns for the element of `BinomialExtensionField<M31, 3>` with the
/// given coefficients.
pub uninterp spec fn ext3_inverse(c0: u32, c1: u32, c2: u32) -> (u32, u32, u32);

/// The element with the given coefficient values.
pub open spec fn ext3_of(c: (u32, u32, u32)) -> Ext3 {
    Ext3 {
        c0: M31 { value: c.0 },
        c1: M31 { value: c.1 },
        c2: M31 { value: c.2 },
    }
}

/// Calls `p3_field::Field::try_inverse` on
/// `p3_field::extension::BinomialExtensionField<p3_mersenne_31::Mersenne31, 3>`.
///
/// Claims that it gives `None` exactly for zero, and otherwise the element in
/// reduced form whose product with the argument is one, which depends on the
/// argument alone.
#[verifier::external_body]
fn ext3_try_inverse(c0: u32, c1: u32, c2: u32) -> (r: Option<(u32, u32, u32)>)
    ensures
        r is None <==> ext3_of((c0, c1, c2)).canon() == Ext3::zero_spec(),
        r matches Some(b) ==> b == ext3_inverse(c0, c1, c2) && ext3_of(b).canon() == ext3_of(b)
            && ext3_of((c0, c1, c2)).times_spec(ext3_of(b)) == Ext3::one_spec(),
{
    let x = BinomialExtensionField::<p3_mersenne_31::Mersenne31, 3>::new(
        [c0, c1, c2].map(p3_mersenne_31::Mersenne31::new),
    );
    let y = p3_field::Field::try_inverse(&x)?;
    let s: &[p3_mersenne_31::Mersenne31] = y.as_basis_coefficients_slice();
    Some((s[0].as_canonical_u32(), s[1].as_canonical_u32(), s[2].as_canonical_u32()))
}

impl Ext3 {
    pub fn new(c0: M31, c1: M31, c2: M31) -> (r: Self)
        ensures
            r == (Ext3 { c0, c1, c2 }),
    {
        Ext3 { c0, c1, c2 }
    }

    /// The product with an element of the base field.
    pub open spec fn times_base_spec(self, b: M31) -> Self {
        Ext3 { c0: self.c0.times_spec(b), c1: self.c1.times_spec(b), c2: self.c2.times_spec(b) }
    }

    pub fn times_base(self, b: M31) -> (r: Self)
        ensures
            r == self.times_base_spec(b),
            r.canon() == r,
    {
        Ext3 { c0: self.c0.times(b), c1: self.c1.times(b), c2: self.c2.times(b) }
    }

    /// The image under the Frobenius map, `x` to the power `P`.
    pub open spec fn frobenius_spec(self) -> Self {
        let z = dth_root_spec();
        Ext3 {
            c0: self.c0.canon(),
            c1: self.c1.times_spec(z),
            c2: self.c2.times_spec(z.times_spec(z)),
        }
    }

    pub fn frobenius(self) -> (r: Self)
        ensures
            r == self.frobenius_spec(),
            r.canon() == r,
    {
        let z = M31 { value: 1513477735 };
        Ext3 {
            c0: self.c0.reduce(),
            c1: self.c1.times(z),
            c2: self.c2.times(z.times(z)),
        }
    }
}

impl Ring for Ext3 {
    open spec fn canon(self) -> Self {
        Ext3 { c0: self.c0.canon(), c1: self.c1.canon(), c2: self.c2.canon() }
    }

    open spec fn zero_spec() -> Self {
        Ext3 { c0: M31::zero_spec(), c1: M31::zero_spec(), c2: M31::zero_spec() }
    }

    open spec fn one_spec() -> Self {
        Ext3 { c0: M31::one_spec(), c1: M31::zero_spec(), c2: M31::zero_spec() }
    }

    open spec fn from_u64_spec(v: u64) -> Self {
        Ext3 { c0: M31::from_u64_spec(v), c1: M31::zero_spec(), c2: M31::zero_spec() }
    }

    open spec fn plus_spec(self, rhs: Self) -> Self {
        Ext3 {
            c0: self.c0.plus_spec(rhs.c0),
            c1: self.c1.plus_spec(rhs.c1),
            c2: self.c2.plus_spec(rhs.c2),
        }
    }

    open spec fn minus_spec(self, rhs: Self) -> Self {
        Ext3 {
            c0: self.c0.minus_spec(rhs.c0),
            c1: self.c1.minus_spec(rhs.c1),
            c2: self.c2.minus_spec(rhs.c2),
        }
    }

    open spec fn times_spec(self, rhs: Self) -> Self {
        let w = w_spec();
        Ext3 {
            c0: self.c0.times_spec(rhs.c0).plus_spec(
                w.times_spec(self.c1.times_spec(rhs.c2).plus_spec(self.c2.times_spec(rhs.c1))),
            ),
            c1: self.c0.times_spec(rhs.c1).plus_spec(self.c1.times_spec(rhs.c0)).plus_spec(
                w.times_spec(self.c2.times_spec(rhs.c2)),
            ),
            c2: self.c0.times_spec(rhs.c2).plus_spec(self.c1.times_spec(rhs.c1)).plus_spec(
                self.c2.times_spec(rhs.c0),
            ),
        }
    }

    open spec fn negate_spec(self) -> Self {
        Ext3 { c0: self.c0.negate_spec(), c1: self.c1.negate_spec(), c2: self.c2.negate_spec() }
    }

    fn reduce(self) -> (r: Self) {
        Ext3 { c0: self.c0.reduce(), c1: self.c1.reduce(), c2: self.c2.reduce() }
    }

    fn zero() -> (r: Self) {
        Ext3 { c0: M31::zero(), c1: M31::zero(), c2: M31::zero() }
    }

    fn one() -> (r: Self) {
        Ext3 { c0: M31::one(), c1: M31::zero(), c2: M31::zero() }
    }

    fn from_u64(v: u64) -> (r: Self) {
        Ext3 { c0: M31::from_u64(v), c1: M31::zero(), c2: M31::zero() }
    }

    fn plus(self, rhs: Self) -> (r: Self) {
        Ext3 { c0: self.c0.plus(rhs.c0), c1: self.c1.plus(rhs.c1), c2: self.c2.plus(rhs.c2) }
    }

    fn minus(self, rhs: Self) -> (r: Self) {
        Ext3 { c0: self.c0.minus(rhs.c0), c1: self.c1.minus(rhs.c1), c2: self.c2.minus(rhs.c2) }
    }

    fn times(self, rhs: Self) -> (r: Self) {
        let w = M31 { value: 5 };
        let c0 = self.c0.times(rhs.c0).plus(
            w.times(self.c1.times(rhs.c2).plus(self.c2.times(rhs.c1))),
        );
        let c1 = self.c0.times(rhs.c1).plus(self.c1.times(rhs.c0)).plus(
            w.times(self.c2.times(rhs.c2)),
        );
        let c2 = self.c0.times(rhs.c2).plus(self.c1.times(rhs.c1)).plus(self.c2.times(rhs.c0));
        Ext3 { c0, c1, c2 }
    }

    fn negate(self) -> (r: Self) {
        Ext3 { c0: self.c0.negate(), c1: self.c1.negate(), c2: self.c2.negate() }
    }

    fn same(self, rhs: Self) -> (r: bool) {
        self.c0.same(rhs.c0) && self.c1.same(rhs.c1) && self.c2.same(rhs.c2)
    }

    proof fn lemma_results_reduced(a: Self, b: Self, v: u64) {
        M31::lemma_results_reduced(a.c0, b.c0, v);
        M31::lemma_results_reduced(a.c1, b.c1, v);
        M31::lemma_results_reduced(a.c2, b.c2, v);
        let w = w_spec();
        M31::lemma_results_reduced(
            a.c0.times_spec(b.c0),
            w.times_spec(a.c1.times_spec(b.c2).plus_spec(a.c2.times_spec(b.c1))),
            v,
        );
        M31::lemma_results_reduced(
            a.c0.times_spec(b.c1).plus_spec(a.c1.times_spec(b.c0)),
            w.times_spec(a.c2.times_spec(b.c2)),
            v,
        );
        M31::lemma_results_reduced(
            a.c0.times_spec(b.c2).plus_spec(a.c1.times_spec(b.c1)),
            a.c2.times_spec(b.c0),
            v,
        );
    }
}

impl M31Algebra for M31 {
    open spec fn embed_spec(b: M31) -> Self {
        b.canon()
    }

    fn embed(b: M31) -> (r: Self) {
        b.reduce()
    }
}

impl M31Algebra for Ext3 {
    open spec fn embed_spec(b: M31) -> Self {
        Ext3 { c0: b.canon(), c1: M31::zero_spec(), c2: M31::zero_spec() }
    }

    fn embed(b: M31) -> (r: Self) {
        Ext3 { c0: b.reduce(), c1: M31::zero(), c2: M31::zero() }
    }
}

impl Field for Ext3 {
    open spec fn inverse_spec(self) -> Self {
        ext3_of(ext3_inverse(self.c0.value, self.c1.value, self.c2.value))
    }

    open spec fn halve_spec(self) -> Self {
        self.times_base_spec(M31::half_spec())
    }

    fn halve(self) -> (r: Self) {
        self.times_base(M31 { value: 0x4000_0000 })
    }

    fn try_inverse(self) -> (r: Option<Self>) {
        match ext3_try_inverse(self.c0.value, self.c1.value, self.c2.value) {
            Some(b) => Some(
                Ext3 {
                    c0: M31 { value: b.0 },
                    c1: M31 { value: b.1 },
                    c2: M31 { value: b.2 },
                },
            ),
            None => None,
        }
    }
}

} // verus!
