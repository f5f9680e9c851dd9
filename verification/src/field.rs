//! The algebraic interfaces that the rest of the crate is generic over.
//!
//! Every operation is total. A value that is not in reduced form stands for
//! its reduced form, `canon`, and every operation returns a reduced value.

use vstd::prelude::*;

verus! {

/// A commutative ring with unit, given by its operations as spec functions
/// and by executable methods that compute exactly those functions.
pub trait Ring: Sized + Copy {
    /// The reduced form of a value: the representative that equality compares.
    spec fn canon(self) -> Self;

    spec fn zero_spec() -> Self;

    spec fn one_spec() -> Self;

    /// The image of an integer under the map from the integers into the ring.
    spec fn from_u64_spec(v: u64) -> Self;

    spec fn plus_spec(self, rhs: Self) -> Self;

    spec fn minus_spec(self, rhs: Self) -> Self;

    spec fn times_spec(self, rhs: Self) -> Self;

    spec fn negate_spec(self) -> Self;

    /// The reduced form of a value.
    fn reduce(self) -> (r: Self)
        ensures
            r == self.canon(),
            r.canon() == r,
    ;

    fn zero() -> (r: Self)
        ensures
            r == Self::zero_spec(),
            r.canon() == r,
    ;

    fn one() -> (r: Self)
        ensures
            r == Self::one_spec(),
            r.canon() == r,
    ;

    fn from_u64(v: u64) -> (r: Self)
        ensures
            r == Self::from_u64_spec(v),
            r.canon() == r,
    ;

    fn plus(self, rhs: Self) -> (r: Self)
        ensures
            r == self.plus_spec(rhs),
            r.canon() == r,
    ;

    fn minus(self, rhs: Self) -> (r: Self)
        ensures
            r == self.minus_spec(rhs),
            r.canon() == r,
    ;

    fn times(self, rhs: Self) -> (r: Self)
        ensures
            r == self.times_spec(rhs),
            r.canon() == r,
    ;

    fn negate(self) -> (r: Self)
        ensures
            r == self.negate_spec(),
            r.canon() == r,
    ;

    /// Whether two values stand for the same element.
    fn same(self, rhs: Self) -> (r: bool)
        ensures
            r == (self.canon() == rhs.canon()),
    ;

    /// Every operation returns its result in reduced form.
    proof fn lemma_results_reduced(a: Self, b: Self, v: u64)
        ensures
            Self::zero_spec().canon() == Self::zero_spec(),
            Self::one_spec().canon() == Self::one_spec(),
            Self::from_u64_spec(v).canon() == Self::from_u64_spec(v),
            a.plus_spec(b).canon() == a.plus_spec(b),
            a.minus_spec(b).canon() == a.minus_spec(b),
            a.times_spec(b).canon() == a.times_spec(b),
            a.negate_spec().canon() == a.negate_spec(),
            a.canon().canon() == a.canon(),
    ;
}

/// A field: a ring in which every element but zero has an inverse.
pub trait Field: Ring {
    /// The inverse of an element that is not zero.
    spec fn inverse_spec(self) -> Self;

    /// The element of which `self` is the double.
    spec fn halve_spec(self) -> Self;

    fn halve(self) -> (r: Self)
        ensures
            r == self.halve_spec(),
            r.canon() == r,
    ;

    /// The inverse, or `None` for zero.
    fn try_inverse(self) -> (r: Option<Self>)
        ensures
            r is None <==> self.canon() == Self::zero_spec(),
            r is Some ==> r == Some(self.inverse_spec()),
            r is Some ==> self.inverse_spec().canon() == self.inverse_spec(),
            r is Some ==> self.times_spec(self.inverse_spec()) == Self::one_spec(),
    ;
}

/// The inverse of `x`, and zero for zero.
pub open spec fn inverse_or_zero_spec<F: Field>(x: F) -> F {
    if x.canon() == F::zero_spec() {
        F::zero_spec()
    } else {
        x.inverse_spec()
    }
}

pub fn inverse_or_zero<F: Field>(x: F) -> (r: F)
    ensures
        r == inverse_or_zero_spec(x),
{
    match x.try_inverse() {
        Some(y) => y,
        None => F::zero(),
    }
}

/// The inverses of the entries of `xs`, if none of them is zero.
pub fn batch_multiplicative_inverse<F: Field>(xs: &Vec<F>) -> (r: Option<Vec<F>>)
    ensures
        r is Some <==> forall|i: int| 0 <= i < xs@.len() ==> (#[trigger] xs@[i]).canon() != F::zero_spec(),
        r matches Some(v) ==> v@.len() == xs@.len() && forall|i: int|
            0 <= i < xs@.len() ==> #[trigger] v@[i] == xs@[i].inverse_spec(),
{
    let mut out: Vec<F> = Vec::new();
    let mut i: usize = 0;
    while i < xs.len()
        invariant
            i <= xs@.len(),
            out@.len() == i,
            forall|k: int| 0 <= k < i ==> (#[trigger] xs@[k]).canon() != F::zero_spec(),
            forall|k: int| 0 <= k < i ==> #[trigger] out@[k] == xs@[k].inverse_spec(),
        decreases xs@.len() - i,
    {
        match xs[i].try_inverse() {
            None => {
                return None;
            },
            Some(y) => {
                out.push(y);
            },
        }
        i += 1;
    }
    Some(out)
}

/// `x` raised to the power `e`, by repeated multiplication from the left.
pub open spec fn pow_spec<R: Ring>(x: R, e: nat) -> R
    decreases e,
{
    if e == 0 {
        R::one_spec()
    } else {
        pow_spec(x, (e - 1) as nat).times_spec(x)
    }
}

/// Raises `x` to the power `e`.
pub fn pow<R: Ring>(x: R, e: u64) -> (r: R)
    ensures
        r == pow_spec(x, e as nat),
{
    let mut acc = R::one();
    let mut i: u64 = 0;
    while i < e
        invariant
            i <= e,
            acc == pow_spec(x, i as nat),
        decreases e - i,
    {
        acc = acc.times(x);
        i += 1;
    }
    acc
}

/// `x` squared `k` times over: `x` to the power two to the `k`.
pub open spec fn square_times_spec<R: Ring>(x: R, k: nat) -> R
    decreases k,
{
    if k == 0 {
        x
    } else {
        let y = square_times_spec(x, (k - 1) as nat);
        y.times_spec(y)
    }
}

/// Squares `x` `k` times over.
pub fn square_times<R: Ring>(x: R, k: usize) -> (r: R)
    ensures
        r == square_times_spec(x, k as nat),
{
    let mut acc = x;
    let mut i: usize = 0;
    while i < k
        invariant
            i <= k,
            acc == square_times_spec(x, i as nat),
        decreases k - i,
    {
        acc = acc.times(acc);
        i += 1;
    }
    acc
}

/// The sum of a sequence, taken from the left, starting at zero.
pub open spec fn sum_spec<R: Ring>(s: Seq<R>) -> R
    decreases s.len(),
{
    if s.len() == 0 {
        R::zero_spec()
    } else {
        sum_spec(s.drop_last()).plus_spec(s.last())
    }
}

/// Sums a vector from the left.
pub fn sum<R: Ring>(v: &Vec<R>) -> (r: R)
    ensures
        r == sum_spec(v@),
{
    let mut acc = R::zero();
    let mut i: usize = 0;
    while i < v.len()
        invariant
            i <= v.len(),
            acc == sum_spec(v@.take(i as int)),
        decreases v.len() - i,
    {
        assert(v@.take(i + 1).drop_last() =~= v@.take(i as int));
        acc = acc.plus(v[i]);
        i += 1;
    }
    assert(v@.take(v.len() as int) =~= v@);
    acc
}

} // verus!
