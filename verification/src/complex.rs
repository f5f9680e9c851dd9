//! Pairs `re + im * i` with `i * i = -1`: the points of the circle,
//! and the numbers that rotate them.

use vstd::prelude::*;
use crate::field::{Field, Ring};
use crate::mersenne31::M31;
use crate::extension::M31Algebra;

verus! {

#[derive(Clone, Copy, PartialEq, Eq, Structural, Debug, Hash)]
pub struct Complex<F> {
    pub re: F,
    pub im: F,
}

impl<F: Ring> Complex<F> {
    pub fn new(re: F, im: F) -> (r: Self)
        ensures
            r == (Complex { re, im }),
    {
        Complex { re, im }
    }

    pub fn re(self) -> (r: F)
        ensures
            r == self.re,
    {
        self.re
    }

    pub fn im(self) -> (r: F)
        ensures
            r == self.im,
    {
        self.im
    }

    /// The number one, which is also the neutral point of the circle group.
    pub open spec fn one_spec() -> Self {
        Complex { re: F::one_spec(), im: F::zero_spec() }
    }

    pub fn one() -> (r: Self)
        ensures
            r == Self::one_spec(),
    {
        Complex { re: F::one(), im: F::zero() }
    }

    pub open spec fn conjugate_spec(self) -> Self {
        Complex { re: self.re.canon(), im: self.im.negate_spec() }
    }

    /// The complex conjugate; on the circle, the inverse point.
    pub fn conjugate(self) -> (r: Self)
        ensures
            r == self.conjugate_spec(),
    {
        Complex { re: self.re.reduce(), im: self.im.negate() }
    }

    pub open spec fn plus_spec(self, rhs: Self) -> Self {
        Complex { re: self.re.plus_spec(rhs.re), im: self.im.plus_spec(rhs.im) }
    }

    pub fn plus(self, rhs: Self) -> (r: Self)
        ensures
            r == self.plus_spec(rhs),
    {
        Complex { re: self.re.plus(rhs.re), im: self.im.plus(rhs.im) }
    }

    pub open spec fn minus_spec(self, rhs: Self) -> Self {
        Complex { re: self.re.minus_spec(rhs.re), im: self.im.minus_spec(rhs.im) }
    }

    pub fn minus(self, rhs: Self) -> (r: Self)
        ensures
            r == self.minus_spec(rhs),
    {
        Complex { re: self.re.minus(rhs.re), im: self.im.minus(rhs.im) }
    }

    /// The complex product; on the circle, the group operation.
    pub open spec fn rotate_spec(self, rhs: Self) -> Self {
        Complex {
            re: self.re.times_spec(rhs.re).minus_spec(self.im.times_spec(rhs.im)),
            im: self.re.times_spec(rhs.im).plus_spec(self.im.times_spec(rhs.re)),
        }
    }

    pub fn rotate(self, rhs: Self) -> (r: Self)
        ensures
            r == self.rotate_spec(rhs),
    {
        Complex {
            re: self.re.times(rhs.re).minus(self.im.times(rhs.im)),
            im: self.re.times(rhs.im).plus(self.im.times(rhs.re)),
        }
    }

    /// `self` rotated by itself `k` times over: the point doubled `k` times.
    pub open spec fn double_times_spec(self, k: nat) -> Self
        decreases k,
    {
        if k == 0 {
            self
        } else {
            let q = self.double_times_spec((k - 1) as nat);
            q.rotate_spec(q)
        }
    }

    pub fn double_times(self, k: usize) -> (r: Self)
        ensures
            r == self.double_times_spec(k as nat),
    {
        let mut acc = self;
        let mut i: usize = 0;
        while i < k
            invariant
                i <= k,
                acc == self.double_times_spec(i as nat),
            decreases k - i,
        {
            acc = acc.rotate(acc);
            i += 1;
        }
        acc
    }

    /// The squared norm, `re^2 + im^2`; it is one on the circle.
    pub open spec fn norm_spec(self) -> F {
        self.re.times_spec(self.re).plus_spec(self.im.times_spec(self.im))
    }

    pub fn norm(self) -> (r: F)
        ensures
            r == self.norm_spec(),
            r.canon() == r,
    {
        self.re.times(self.re).plus(self.im.times(self.im))
    }
}

impl Complex<M31> {
    /// The same number over a field that holds the base field.
    pub open spec fn lift_spec<EF: M31Algebra>(self) -> Complex<EF> {
        Complex { re: EF::embed_spec(self.re), im: EF::embed_spec(self.im) }
    }

    pub fn lift<EF: M31Algebra>(self) -> (r: Complex<EF>)
        ensures
            r == self.lift_spec::<EF>(),
    {
        Complex { re: EF::embed(self.re), im: EF::embed(self.im) }
    }
}

} // verus!
