//! The prime field of order `2^31 - 1`.

use vstd::prelude::*;
use crate::field::{Field, Ring};
use p3_field::PrimeField32;

verus! {

/// The Mersenne prime `2^31 - 1`.
pub const P: u32 = 0x7fff_ffff;

/// An element of the field of order `P`, held as any `u32` that is congruent
/// to it. `value % P` is the element's reduced form.
#[derive(Clone, Copy, PartialEq, Eq, Structural, Debug, Hash)]
pub struct M31 {
    pub value: u32,
}

/// The inverse modulo `P` that `p3_field::Field::try_inverse` returns for the
/// Mersenne-31 element with the given value.
pub uninterp spec fn m31_inverse(a: u32) -> u32;

/// Calls `p3_field::Field::try_inverse` on `p3_mersenne_31::Mersenne31`.
///
/// Claims that it gives `None` exactly for a multiple of `P`, and otherwise
/// the reduced `b` with `a * b` congruent to one, which depends on `a` alone.
#[verifier::external_body]
fn m31_try_inverse(a: u32) -> (r: Option<u32>)
    ensures
        r is None <==> a % P == 0,
        r matches Some(b) ==> b == m31_inverse(a) && b < P && ((a % P) * b) % (P as int) == 1,
{
    p3_field::Field::try_inverse(&p3_mersenne_31::Mersenne31::new(a)).map(|x| x.as_canonical_u32())
}

/// The sum of two elements, reduced.
#[verifier::opaque]
pub open spec fn m31_plus(a: M31, b: M31) -> M31 {
    M31 { value: ((a.reduced() + b.reduced()) % (P as nat)) as u32 }
}

/// The difference of two elements, reduced.
#[verifier::opaque]
pub open spec fn m31_minus(a: M31, b: M31) -> M31 {
    M31 { value: ((a.reduced() + P - b.reduced()) % (P as int)) as u32 }
}

/// The product of two elements, reduced.
#[verifier::opaque]
pub open spec fn m31_times(a: M31, b: M31) -> M31 {
    M31 { value: ((a.reduced() * b.reduced()) % (P as nat)) as u32 }
}

/// The negative of an element, reduced.
#[verifier::opaque]
pub open spec fn m31_negate(a: M31) -> M31 {
    M31 { value: ((P - a.reduced()) % (P as int)) as u32 }
}

impl M31 {
    /// The element that `value` is congruent to, in reduced form.
    pub fn new(value: u32) -> (r: Self)
        ensures
            r == (M31 { value: value % P }),
    {
        M31 { value: value % P }
    }

    /// The reduced value, below `P`.
    pub open spec fn reduced(self) -> nat {
        (self.value % P) as nat
    }

    /// The reduced value, below `P`.
    pub fn as_canonical_u32(self) -> (r: u32)
        ensures
            r == self.reduced(),
            r < P,
    {
        self.value % P
    }

    /// Half of one: `2^30`.
    pub open spec fn half_spec() -> Self {
        M31 { value: 0x4000_0000 }
    }
}

impl Ring for M31 {
    open spec fn canon(self) -> Self {
        M31 { value: self.value % P }
    }

    open spec fn zero_spec() -> Self {
        M31 { value: 0 }
    }

    open spec fn one_spec() -> Self {
        M31 { value: 1 }
    }

    open spec fn from_u64_spec(v: u64) -> Self {
        M31 { value: (v % (P as u64)) as u32 }
    }

    open spec fn plus_spec(self, rhs: Self) -> Self {
        m31_plus(self, rhs)
    }

    open spec fn minus_spec(self, rhs: Self) -> Self {
        m31_minus(self, rhs)
    }

    open spec fn times_spec(self, rhs: Self) -> Self {
        m31_times(self, rhs)
    }

    open spec fn negate_spec(self) -> Self {
        m31_negate(self)
    }

    fn reduce(self) -> (r: Self) {
        M31 { value: self.value % P }
    }

    fn zero() -> (r: Self) {
        M31 { value: 0 }
    }

    fn one() -> (r: Self) {
        M31 { value: 1 }
    }

    fn from_u64(v: u64) -> (r: Self) {
        M31 { value: (v % (P as u64)) as u32 }
    }

    fn plus(self, rhs: Self) -> (r: Self) {
        reveal(m31_plus);
        let s: u64 = (self.value % P) as u64 + (rhs.value % P) as u64;
        M31 { value: (s % (P as u64)) as u32 }
    }

    fn minus(self, rhs: Self) -> (r: Self) {
        reveal(m31_minus);
        let s: u64 = (self.value % P) as u64 + (P as u64) - (rhs.value % P) as u64;
        M31 { value: (s % (P as u64)) as u32 }
    }

    fn times(self, rhs: Self) -> (r: Self) {
        reveal(m31_times);
        let a: u64 = (self.value % P) as u64;
        let b: u64 = (rhs.value % P) as u64;
        assert(a * b <= 0x7fff_ffff * 0x7fff_ffff) by (nonlinear_arith)
            requires
                a <= 0x7fff_ffff,
                b <= 0x7fff_ffff,
        ;
        M31 { value: ((a * b) % (P as u64)) as u32 }
    }

    fn negate(self) -> (r: Self) {
        reveal(m31_negate);
        M31 { value: (P - self.value % P) % P }
    }

    fn same(self, rhs: Self) -> (r: bool) {
        self.value % P == rhs.value % P
    }

    proof fn lemma_results_reduced(a: Self, b: Self, v: u64) {
        reveal(m31_plus);
        reveal(m31_minus);
        reveal(m31_times);
        reveal(m31_negate);
        vstd::arithmetic::div_mod::lemma_mod_twice(a.value as int, P as int);
    }
}

impl Field for M31 {
    open spec fn inverse_spec(self) -> Self {
        M31 { value: m31_inverse(self.value) }
    }

    open spec fn halve_spec(self) -> Self {
        self.times_spec(Self::half_spec())
    }

    fn halve(self) -> (r: Self) {
        self.times(M31 { value: 0x4000_0000 })
    }

    fn try_inverse(self) -> (r: Option<Self>) {
        reveal(m31_times);
        match m31_try_inverse(self.value) {
            Some(b) => {
                assert(b % P == b) by {
                    vstd::arithmetic::div_mod::lemma_small_mod(b as nat, P as nat);
                }
                Some(M31 { value: b })
            },
            None => None,
        }
    }
}

} // verus!
