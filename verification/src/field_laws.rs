//! The arithmetic of the Mersenne-31 field and of its cubic extension as
//! arithmetic of integers modulo the prime, and what folding does to the
//! values of a polynomial at a point and its conjugate.

use vstd::prelude::*;
use vstd::arithmetic::div_mod::{lemma_add_mod_noop, lemma_fundamental_div_mod, lemma_mod_add_multiples_vanish, lemma_mod_multiples_vanish, lemma_mod_twice, lemma_mul_mod_noop_general, lemma_small_mod, lemma_sub_mod_noop};
use crate::complex::Complex;
use crate::domain::CircleDomain;
use crate::extension::{Ext3, M31Algebra};
use crate::field::{Field, Ring};
use crate::folding::fold_pair_spec;
use crate::mersenne31::{m31_minus, m31_plus, m31_times, M31, P};

verus! {

/// Whether the element `a` is the residue of the integer `x`.
pub open spec fn is_residue(a: M31, x: int) -> bool {
    (a.value % P) as int == x % (P as int)
}

/// Whether an element is held in reduced form.
pub open spec fn is_reduced(a: M31) -> bool {
    a.value < P
}

/// Two elements in reduced form that are residues of one integer are one
/// element.
pub proof fn lemma_residues_equal(a: M31, b: M31, x: int)
    requires
        is_residue(a, x),
        is_residue(b, x),
        is_reduced(a),
        is_reduced(b),
    ensures
        a == b,
{
    lemma_small_mod(a.value as nat, P as nat);
    lemma_small_mod(b.value as nat, P as nat);
}

/// The sum of residues is the residue of the sum.
pub proof fn lemma_plus_residue(a: M31, b: M31, x: int, y: int)
    requires
        is_residue(a, x),
        is_residue(b, y),
    ensures
        is_residue(a.plus_spec(b), x + y),
        is_reduced(a.plus_spec(b)),
{
    reveal(m31_plus);
    lemma_add_mod_noop(x, y, P as int);
    lemma_mod_twice((a.value % P) as int + (b.value % P) as int, P as int);
}

/// The difference of residues is the residue of the difference.
pub proof fn lemma_minus_residue(a: M31, b: M31, x: int, y: int)
    requires
        is_residue(a, x),
        is_residue(b, y),
    ensures
        is_residue(a.minus_spec(b), x - y),
        is_reduced(a.minus_spec(b)),
{
    reveal(m31_minus);
    lemma_sub_mod_noop(x, y, P as int);
    let d = (a.value % P) as int - (b.value % P) as int;
    lemma_mod_add_multiples_vanish(d, P as int);
    lemma_mod_twice(d + P, P as int);
}

/// The product of residues is the residue of the product.
pub proof fn lemma_times_residue(a: M31, b: M31, x: int, y: int)
    requires
        is_residue(a, x),
        is_residue(b, y),
    ensures
        is_residue(a.times_spec(b), x * y),
        is_reduced(a.times_spec(b)),
{
    reveal(m31_times);
    lemma_mul_mod_noop_general(x, y, P as int);
    lemma_mod_twice((a.value % P) as int * (b.value % P) as int, P as int);
}

/// An element is the residue of its held value and of its reduced value.
pub proof fn lemma_own_residue(a: M31)
    ensures
        is_residue(a, a.value as int),
        is_residue(a.canon(), a.value as int),
        is_reduced(a.canon()),
{
    lemma_mod_twice(a.value as int, P as int);
}

/// Three integers: the coefficients of an integer polynomial of degree two.
pub struct Coefficients {
    pub c0: int,
    pub c1: int,
    pub c2: int,
}

/// Whether the extension element `a` is, coefficient by coefficient, the
/// residue of `x`.
pub open spec fn is_ext_residue(a: Ext3, x: Coefficients) -> bool {
    is_residue(a.c0, x.c0) && is_residue(a.c1, x.c1) && is_residue(a.c2, x.c2)
}

/// Whether an extension element is held in reduced form.
pub open spec fn is_ext_reduced(a: Ext3) -> bool {
    is_reduced(a.c0) && is_reduced(a.c1) && is_reduced(a.c2)
}

/// The product of two polynomials modulo `X^3 - 5`.
pub open spec fn product_spec(x: Coefficients, y: Coefficients) -> Coefficients {
    Coefficients {
        c0: x.c0 * y.c0 + 5 * (x.c1 * y.c2 + x.c2 * y.c1),
        c1: x.c0 * y.c1 + x.c1 * y.c0 + 5 * (x.c2 * y.c2),
        c2: x.c0 * y.c2 + x.c1 * y.c1 + x.c2 * y.c0,
    }
}

/// The sum of two polynomials.
pub open spec fn sum_spec(x: Coefficients, y: Coefficients) -> Coefficients {
    Coefficients { c0: x.c0 + y.c0, c1: x.c1 + y.c1, c2: x.c2 + y.c2 }
}

/// The difference of two polynomials.
pub open spec fn difference_spec(x: Coefficients, y: Coefficients) -> Coefficients {
    Coefficients { c0: x.c0 - y.c0, c1: x.c1 - y.c1, c2: x.c2 - y.c2 }
}

/// A polynomial times an integer.
pub open spec fn scaled_spec(x: Coefficients, k: int) -> Coefficients {
    Coefficients { c0: x.c0 * k, c1: x.c1 * k, c2: x.c2 * k }
}

/// Two extension elements in reduced form that are residues of polynomials
/// with congruent coefficients are one element.
pub proof fn lemma_ext_residues_equal(a: Ext3, b: Ext3, x: Coefficients, y: Coefficients)
    requires
        is_ext_residue(a, x),
        is_ext_residue(b, y),
        is_ext_reduced(a),
        is_ext_reduced(b),
        x.c0 % (P as int) == y.c0 % (P as int),
        x.c1 % (P as int) == y.c1 % (P as int),
        x.c2 % (P as int) == y.c2 % (P as int),
    ensures
        a == b,
{
    lemma_residues_equal(a.c0, b.c0, x.c0);
    lemma_residues_equal(a.c1, b.c1, x.c1);
    lemma_residues_equal(a.c2, b.c2, x.c2);
}

/// The sum of extension residues is the residue of the sum.
pub proof fn lemma_ext_plus_residue(a: Ext3, b: Ext3, x: Coefficients, y: Coefficients)
    requires
        is_ext_residue(a, x),
        is_ext_residue(b, y),
    ensures
        is_ext_residue(a.plus_spec(b), sum_spec(x, y)),
        is_ext_reduced(a.plus_spec(b)),
{
    lemma_plus_residue(a.c0, b.c0, x.c0, y.c0);
    lemma_plus_residue(a.c1, b.c1, x.c1, y.c1);
    lemma_plus_residue(a.c2, b.c2, x.c2, y.c2);
}

/// The difference of extension residues is the residue of the difference.
pub proof fn lemma_ext_minus_residue(a: Ext3, b: Ext3, x: Coefficients, y: Coefficients)
    requires
        is_ext_residue(a, x),
        is_ext_residue(b, y),
    ensures
        is_ext_residue(a.minus_spec(b), difference_spec(x, y)),
        is_ext_reduced(a.minus_spec(b)),
{
    lemma_minus_residue(a.c0, b.c0, x.c0, y.c0);
    lemma_minus_residue(a.c1, b.c1, x.c1, y.c1);
    lemma_minus_residue(a.c2, b.c2, x.c2, y.c2);
}

/// The product of extension residues is the residue of the product
/// modulo `X^3 - 5`.
pub proof fn lemma_ext_times_residue(a: Ext3, b: Ext3, x: Coefficients, y: Coefficients)
    requires
        is_ext_residue(a, x),
        is_ext_residue(b, y),
    ensures
        is_ext_residue(a.times_spec(b), product_spec(x, y)),
        is_ext_reduced(a.times_spec(b)),
{
    let w = crate::extension::w_spec();
    assert(is_residue(w, 5)) by {
        lemma_small_mod(5, P as nat);
    }
    // c0
    lemma_times_residue(a.c0, b.c0, x.c0, y.c0);
    lemma_times_residue(a.c1, b.c2, x.c1, y.c2);
    lemma_times_residue(a.c2, b.c1, x.c2, y.c1);
    lemma_plus_residue(a.c1.times_spec(b.c2), a.c2.times_spec(b.c1), x.c1 * y.c2, x.c2 * y.c1);
    lemma_times_residue(
        w,
        a.c1.times_spec(b.c2).plus_spec(a.c2.times_spec(b.c1)),
        5,
        x.c1 * y.c2 + x.c2 * y.c1,
    );
    lemma_plus_residue(
        a.c0.times_spec(b.c0),
        w.times_spec(a.c1.times_spec(b.c2).plus_spec(a.c2.times_spec(b.c1))),
        x.c0 * y.c0,
        5 * (x.c1 * y.c2 + x.c2 * y.c1),
    );
    // c1
    lemma_times_residue(a.c0, b.c1, x.c0, y.c1);
    lemma_times_residue(a.c1, b.c0, x.c1, y.c0);
    lemma_times_residue(a.c2, b.c2, x.c2, y.c2);
    lemma_plus_residue(a.c0.times_spec(b.c1), a.c1.times_spec(b.c0), x.c0 * y.c1, x.c1 * y.c0);
    lemma_times_residue(w, a.c2.times_spec(b.c2), 5, x.c2 * y.c2);
    lemma_plus_residue(
        a.c0.times_spec(b.c1).plus_spec(a.c1.times_spec(b.c0)),
        w.times_spec(a.c2.times_spec(b.c2)),
        x.c0 * y.c1 + x.c1 * y.c0,
        5 * (x.c2 * y.c2),
    );
    // c2
    lemma_times_residue(a.c0, b.c2, x.c0, y.c2);
    lemma_times_residue(a.c1, b.c1, x.c1, y.c1);
    lemma_times_residue(a.c2, b.c0, x.c2, y.c0);
    lemma_plus_residue(a.c0.times_spec(b.c2), a.c1.times_spec(b.c1), x.c0 * y.c2, x.c1 * y.c1);
    lemma_plus_residue(
        a.c0.times_spec(b.c2).plus_spec(a.c1.times_spec(b.c1)),
        a.c2.times_spec(b.c0),
        x.c0 * y.c2 + x.c1 * y.c1,
        x.c2 * y.c0,
    );
}

/// A base field element in the extension is the residue of a constant.
pub proof fn lemma_embed_residue(b: M31, y: int)
    requires
        is_residue(b, y),
    ensures
        is_ext_residue(Ext3::embed_spec(b), Coefficients { c0: y, c1: 0, c2: 0 }),
{
    lemma_mod_twice(b.value as int, P as int);
    lemma_small_mod(0, P as nat);
}

/// The product with an element of the base field is the residue of the
/// polynomial times the integer.
pub proof fn lemma_times_embedded_residue(a: Ext3, b: M31, x: Coefficients, y: int)
    requires
        is_ext_residue(a, x),
        is_residue(b, y),
    ensures
        is_ext_residue(a.times_spec(Ext3::embed_spec(b)), scaled_spec(x, y)),
        is_ext_reduced(a.times_spec(Ext3::embed_spec(b))),
{
    let e = Coefficients { c0: y, c1: 0, c2: 0 };
    lemma_embed_residue(b, y);
    lemma_ext_times_residue(a, Ext3::embed_spec(b), x, e);
    let p = product_spec(x, e);
    assert(p.c0 == x.c0 * y && p.c1 == x.c1 * y && p.c2 == x.c2 * y) by (nonlinear_arith)
        requires
            p == product_spec(x, e),
            e.c0 == y,
            e.c1 == 0,
            e.c2 == 0,
    ;
}

/// Half of an extension residue is the residue of the polynomial times
/// `2^30`, the inverse of two.
pub proof fn lemma_halve_residue(a: Ext3, x: Coefficients)
    requires
        is_ext_residue(a, x),
    ensures
        is_ext_residue(a.halve_spec(), scaled_spec(x, 0x4000_0000)),
        is_ext_reduced(a.halve_spec()),
{
    let h = M31::half_spec();
    assert(is_residue(h, 0x4000_0000)) by {
        lemma_small_mod(0x4000_0000, P as nat);
    }
    lemma_times_residue(a.c0, h, x.c0, 0x4000_0000);
    lemma_times_residue(a.c1, h, x.c1, 0x4000_0000);
    lemma_times_residue(a.c2, h, x.c2, 0x4000_0000);
}

/// `2^30 * (2 a + 2 b)` is congruent to `a + b`.
pub proof fn lemma_half_of_double(a: int, b: int)
    ensures
        (0x4000_0000 * (2 * a + 2 * b)) % (P as int) == (a + b) % (P as int),
{
    assert(0x4000_0000 * (2 * a + 2 * b) == (P as int) * (a + b) + (a + b)) by (nonlinear_arith);
    lemma_mod_multiples_vanish(a + b, a + b, P as int);
}

/// One coefficient of the fold: with `d = 2 x y t` for each of three
/// coefficients `x` and `y t` congruent to one, half of
/// `2 x0 + u da + v db + w dc` is congruent to `x0 + u xa + v xb + w xc`.
pub proof fn lemma_fold_coefficient(
    x0: int,
    u: int,
    v: int,
    w: int,
    xa: int,
    xb: int,
    xc: int,
    y: int,
    t: int,
    total: int,
)
    requires
        (y * t) % (P as int) == 1,
        total == 2 * x0 + (u * (2 * xa * y * t) + v * (2 * xb * y * t) + w * (2 * xc * y * t)),
    ensures
        (total * 0x4000_0000) % (P as int) == (x0 + (u * xa + v * xb + w * xc)) % (P as int),
{
    let k = (y * t) / (P as int);
    lemma_fundamental_div_mod(y * t, P as int);
    let s = u * xa + v * xb + w * xc;
    let yt = y * t;
    assert(u * (2 * xa * y * t) == 2 * (u * xa) * yt) by (nonlinear_arith)
        requires
            yt == y * t,
    ;
    assert(v * (2 * xb * y * t) == 2 * (v * xb) * yt) by (nonlinear_arith)
        requires
            yt == y * t,
    ;
    assert(w * (2 * xc * y * t) == 2 * (w * xc) * yt) by (nonlinear_arith)
        requires
            yt == y * t,
    ;
    assert(2 * (u * xa) * yt + 2 * (v * xb) * yt + 2 * (w * xc) * yt == 2 * s * yt) by (nonlinear_arith)
        requires
            s == u * xa + v * xb + w * xc,
    ;
    assert(total == 2 * x0 + 2 * s * yt);
    assert(total * 0x4000_0000 == (P as int) * (0x8000_0000 * (s * k)) + 0x4000_0000 * (2 * x0 + 2
        * s)) by (nonlinear_arith)
        requires
            total == 2 * x0 + 2 * s * yt,
            yt == (P as int) * k + 1,
    ;
    lemma_mod_multiples_vanish(0x8000_0000 * (s * k), 0x4000_0000 * (2 * x0 + 2 * s), P as int);
    lemma_half_of_double(x0, s);
}

/// What folding does to the values of a polynomial at a point and at its
/// conjugate: if the polynomial is `f0 + y f1`, with `f0` and `f1` not
/// depending on the second coordinate `y`, then its values at the two
/// points are `f0 + y f1` and `f0 - y f1`, and their fold with the twiddle
/// `t`, the inverse of `y`, is `f0 + beta f1`.
///
/// The same holds of the later folds, with the first coordinate in place
/// of the second.
pub proof fn lemma_fold_of_conjugate_values(f0: Ext3, f1: Ext3, y: M31, t: M31, beta: Ext3)
    requires
        is_residue(y.times_spec(t), 1),
    ensures
        fold_pair_spec(
            f0.plus_spec(f1.times_spec(Ext3::embed_spec(y))),
            f0.minus_spec(f1.times_spec(Ext3::embed_spec(y))),
            beta,
            t,
        ) == f0.plus_spec(beta.times_spec(f1)),
{
    let x0 = Coefficients { c0: f0.c0.value as int, c1: f0.c1.value as int, c2: f0.c2.value as int };
    let x1 = Coefficients { c0: f1.c0.value as int, c1: f1.c1.value as int, c2: f1.c2.value as int };
    let b = Coefficients {
        c0: beta.c0.value as int,
        c1: beta.c1.value as int,
        c2: beta.c2.value as int,
    };
    let yv = y.value as int;
    let tv = t.value as int;
    lemma_own_residue(f0.c0);
    lemma_own_residue(f0.c1);
    lemma_own_residue(f0.c2);
    lemma_own_residue(f1.c0);
    lemma_own_residue(f1.c1);
    lemma_own_residue(f1.c2);
    lemma_own_residue(beta.c0);
    lemma_own_residue(beta.c1);
    lemma_own_residue(beta.c2);
    lemma_own_residue(y);
    lemma_own_residue(t);
    lemma_times_residue(y, t, yv, tv);
    lemma_small_mod(1, P as nat);
    assert((yv * tv) % (P as int) == 1);

    let yf = f1.times_spec(Ext3::embed_spec(y));
    lemma_times_embedded_residue(f1, y, x1, yv);
    let yfp = scaled_spec(x1, yv);
    let lo = f0.plus_spec(yf);
    let hi = f0.minus_spec(yf);
    lemma_ext_plus_residue(f0, yf, x0, yfp);
    lemma_ext_minus_residue(f0, yf, x0, yfp);
    let lop = sum_spec(x0, yfp);
    let hip = difference_spec(x0, yfp);
    let sum = lo.plus_spec(hi);
    lemma_ext_plus_residue(lo, hi, lop, hip);
    let sump = sum_spec(lop, hip);
    let d1 = lo.minus_spec(hi);
    lemma_ext_minus_residue(lo, hi, lop, hip);
    let d1p = difference_spec(lop, hip);
    let diff = d1.times_spec(Ext3::embed_spec(t));
    lemma_times_embedded_residue(d1, t, d1p, tv);
    let diffp = scaled_spec(d1p, tv);
    let bd = beta.times_spec(diff);
    lemma_ext_times_residue(beta, diff, b, diffp);
    let bdp = product_spec(b, diffp);
    let total = sum.plus_spec(bd);
    lemma_ext_plus_residue(sum, bd, sump, bdp);
    let totalp = sum_spec(sump, bdp);
    let folded = total.halve_spec();
    lemma_halve_residue(total, totalp);
    let foldedp = scaled_spec(totalp, 0x4000_0000);

    let bf = beta.times_spec(f1);
    lemma_ext_times_residue(beta, f1, b, x1);
    let bfp = product_spec(b, x1);
    let target = f0.plus_spec(bf);
    lemma_ext_plus_residue(f0, bf, x0, bfp);
    let targetp = sum_spec(x0, bfp);

    // The coefficients of the difference are twice those of `f1`, times `y t`.
    let d0 = diffp.c0;
    let d1c = diffp.c1;
    let d2 = diffp.c2;
    assert(d0 == 2 * x1.c0 * yv * tv && d1c == 2 * x1.c1 * yv * tv && d2 == 2 * x1.c2 * yv * tv)
        by (nonlinear_arith)
        requires
            d0 == ((x0.c0 + x1.c0 * yv) - (x0.c0 - x1.c0 * yv)) * tv,
            d1c == ((x0.c1 + x1.c1 * yv) - (x0.c1 - x1.c1 * yv)) * tv,
            d2 == ((x0.c2 + x1.c2 * yv) - (x0.c2 - x1.c2 * yv)) * tv,
    ;
    assert(sump.c0 == 2 * x0.c0 && sump.c1 == 2 * x0.c1 && sump.c2 == 2 * x0.c2);

    assert(5 * (b.c1 * d2 + b.c2 * d1c) == (5 * b.c1) * d2 + (5 * b.c2) * d1c) by (nonlinear_arith);
    assert(5 * (b.c1 * x1.c2 + b.c2 * x1.c1) == (5 * b.c1) * x1.c2 + (5 * b.c2) * x1.c1)
        by (nonlinear_arith);
    lemma_fold_coefficient(
        x0.c0,
        b.c0,
        5 * b.c1,
        5 * b.c2,
        x1.c0,
        x1.c2,
        x1.c1,
        yv,
        tv,
        totalp.c0,
    );
    assert(5 * (b.c2 * d2) == (5 * b.c2) * d2) by (nonlinear_arith);
    assert(5 * (b.c2 * x1.c2) == (5 * b.c2) * x1.c2) by (nonlinear_arith);
    lemma_fold_coefficient(
        x0.c1,
        b.c0,
        b.c1,
        5 * b.c2,
        x1.c1,
        x1.c0,
        x1.c2,
        yv,
        tv,
        totalp.c1,
    );
    lemma_fold_coefficient(
        x0.c2,
        b.c0,
        b.c1,
        b.c2,
        x1.c2,
        x1.c1,
        x1.c0,
        yv,
        tv,
        totalp.c2,
    );
    lemma_ext_residues_equal(folded, target, foldedp, targetp);
}

/// Whether a point lies on the circle: its squared norm is one.
pub open spec fn on_circle(p: Complex<M31>) -> bool {
    p.norm_spec() == M31::one_spec()
}

/// The squared norm of a point is the residue of the sum of the squares
/// of its coordinates.
pub proof fn lemma_norm_residue(p: Complex<M31>)
    ensures
        is_residue(p.norm_spec(), p.re.value * p.re.value + p.im.value * p.im.value),
        is_reduced(p.norm_spec()),
{
    lemma_own_residue(p.re);
    lemma_own_residue(p.im);
    lemma_times_residue(p.re, p.re, p.re.value as int, p.re.value as int);
    lemma_times_residue(p.im, p.im, p.im.value as int, p.im.value as int);
    lemma_plus_residue(
        p.re.times_spec(p.re),
        p.im.times_spec(p.im),
        p.re.value * p.re.value,
        p.im.value * p.im.value,
    );
}

/// The circle is closed under rotation: the product of two points of the
/// circle is a point of the circle.
pub proof fn lemma_rotate_on_circle(p: Complex<M31>, q: Complex<M31>)
    requires
        on_circle(p),
        on_circle(q),
    ensures
        on_circle(p.rotate_spec(q)),
{
    let a = p.re.value as int;
    let b = p.im.value as int;
    let c = q.re.value as int;
    let d = q.im.value as int;
    let m = P as int;
    lemma_norm_residue(p);
    lemma_norm_residue(q);
    lemma_small_mod(1, P as nat);
    lemma_own_residue(p.re);
    lemma_own_residue(p.im);
    lemma_own_residue(q.re);
    lemma_own_residue(q.im);
    let r = p.rotate_spec(q);
    lemma_times_residue(p.re, q.re, a, c);
    lemma_times_residue(p.im, q.im, b, d);
    lemma_minus_residue(p.re.times_spec(q.re), p.im.times_spec(q.im), a * c, b * d);
    lemma_times_residue(p.re, q.im, a, d);
    lemma_times_residue(p.im, q.re, b, c);
    lemma_plus_residue(p.re.times_spec(q.im), p.im.times_spec(q.re), a * d, b * c);
    let x = a * c - b * d;
    let y = a * d + b * c;
    lemma_times_residue(r.re, r.re, x, x);
    lemma_times_residue(r.im, r.im, y, y);
    lemma_plus_residue(r.re.times_spec(r.re), r.im.times_spec(r.im), x * x, y * y);
    let np = a * a + b * b;
    let nq = c * c + d * d;
    lemma_sum_of_squares(a, b, c, d);
    lemma_mul_mod_noop_general(np, nq, m);
    assert((np * nq) % m == 1) by {
        assert(np % m == 1);
        assert(nq % m == 1);
        assert((1int * 1int) % m == 1);
    }
    lemma_residues_equal(r.norm_spec(), M31::one_spec(), 1);
}

/// The product of two sums of two squares is a sum of two squares.
pub proof fn lemma_sum_of_squares(a: int, b: int, c: int, d: int)
    ensures
        (a * c - b * d) * (a * c - b * d) + (a * d + b * c) * (a * d + b * c) == (a * a + b * b) * (c
            * c + d * d),
{
    let ac = a * c;
    let bd = b * d;
    let ad = a * d;
    let bc = b * c;
    assert((ac - bd) * (ac - bd) == ac * ac - 2 * (ac * bd) + bd * bd) by (nonlinear_arith);
    assert((ad + bc) * (ad + bc) == ad * ad + 2 * (ad * bc) + bc * bc) by (nonlinear_arith);
    assert(ac * bd == ad * bc) by (nonlinear_arith)
        requires
            ac == a * c,
            bd == b * d,
            ad == a * d,
            bc == b * c,
    ;
    assert(ac * ac == (a * a) * (c * c)) by (nonlinear_arith)
        requires
            ac == a * c,
    ;
    assert(bd * bd == (b * b) * (d * d)) by (nonlinear_arith)
        requires
            bd == b * d,
    ;
    assert(ad * ad == (a * a) * (d * d)) by (nonlinear_arith)
        requires
            ad == a * d,
    ;
    assert(bc * bc == (b * b) * (c * c)) by (nonlinear_arith)
        requires
            bc == b * c,
    ;
    let aa = a * a;
    let bb = b * b;
    let cc = c * c;
    let dd = d * d;
    assert((aa + bb) * (cc + dd) == aa * cc + aa * dd + bb * cc + bb * dd) by (nonlinear_arith);
}

/// The conjugate of a point of the circle is a point of the circle.
pub proof fn lemma_conjugate_on_circle(p: Complex<M31>)
    requires
        on_circle(p),
    ensures
        on_circle(p.conjugate_spec()),
{
    let a = p.re.value as int;
    let b = p.im.value as int;
    let m = P as int;
    lemma_norm_residue(p);
    lemma_small_mod(1, P as nat);
    lemma_own_residue(p.re);
    lemma_own_residue(p.im);
    let c = p.conjugate_spec();
    assert(is_residue(c.im, -b)) by {
        lemma_negate_residue(p.im, b);
    }
    lemma_times_residue(c.re, c.re, a, a);
    lemma_times_residue(c.im, c.im, -b, -b);
    lemma_plus_residue(c.re.times_spec(c.re), c.im.times_spec(c.im), a * a, (-b) * (-b));
    assert((-b) * (-b) == b * b) by (nonlinear_arith);
    lemma_residues_equal(c.norm_spec(), M31::one_spec(), 1);
}

/// The negative of a residue is the residue of the negative.
pub proof fn lemma_negate_residue(a: M31, x: int)
    requires
        is_residue(a, x),
    ensures
        is_residue(a.negate_spec(), -x),
        is_reduced(a.negate_spec()),
{
    reveal(crate::mersenne31::m31_negate);
    lemma_sub_mod_noop(0, x, P as int);
    lemma_small_mod(0, P as nat);
    let d = 0 - (a.value % P) as int;
    lemma_mod_add_multiples_vanish(d, P as int);
    lemma_mod_twice(d + P, P as int);
}

/// The generator of the circle group lies on the circle.
pub proof fn lemma_generator_on_circle()
    ensures
        on_circle(crate::domain::circle_generator_spec()),
{
    let g = crate::domain::circle_generator_spec();
    lemma_norm_residue(g);
    lemma_small_mod(1, P as nat);
    let n = 311_014_874int * 311_014_874int + 1_584_694_829int * 1_584_694_829int;
    assert(n == (P as int) * 1_214_439_028int + 1) by (nonlinear_arith)
        requires
            n == 311_014_874int * 311_014_874int + 1_584_694_829int * 1_584_694_829int,
    ;
    lemma_mod_multiples_vanish(1_214_439_028int, 1, P as int);
    lemma_residues_equal(g.norm_spec(), M31::one_spec(), 1);
}

/// Doubling keeps a point on the circle.
pub proof fn lemma_double_times_on_circle(p: Complex<M31>, k: nat)
    requires
        on_circle(p),
    ensures
        on_circle(p.double_times_spec(k)),
    decreases k,
{
    if k > 0 {
        lemma_double_times_on_circle(p, (k - 1) as nat);
        let q = p.double_times_spec((k - 1) as nat);
        lemma_rotate_on_circle(q, q);
    }
}

/// Walking a coset keeps a point on the circle.
pub proof fn lemma_coset_on_circle(start: Complex<M31>, step: Complex<M31>, k: nat)
    requires
        on_circle(start),
        on_circle(step),
    ensures
        on_circle(crate::domain::coset_point_spec(start, step, k)),
    decreases k,
{
    if k > 0 {
        lemma_coset_on_circle(start, step, (k - 1) as nat);
        lemma_rotate_on_circle(crate::domain::coset_point_spec(start, step, (k - 1) as nat), step);
    }
}

/// Every point of a domain whose shift lies on the circle lies on the
/// circle; the points of a standard domain do.
pub proof fn lemma_points_on_circle(domain: CircleDomain, i: nat)
    requires
        domain.wf(),
        on_circle(domain.shift) || domain == CircleDomain::standard_spec(domain.log_n),
    ensures
        on_circle(domain.point_spec(i)),
{
    lemma_generator_on_circle();
    let g0 = crate::domain::circle_generator_spec();
    if domain == CircleDomain::standard_spec(domain.log_n) {
        lemma_double_times_on_circle(g0, (31 - (domain.log_n + 1)) as nat);
    }
    if domain.log_n > 0 {
        let g = domain.gen_spec();
        lemma_double_times_on_circle(g0, (31 - (domain.log_n - 1)) as nat);
        lemma_conjugate_on_circle(domain.shift);
        lemma_rotate_on_circle(domain.shift.conjugate_spec(), g);
        lemma_coset_on_circle(domain.shift, g, i / 2);
        lemma_coset_on_circle(domain.shift.conjugate_spec().rotate_spec(g), g, i / 2);
    }
}

/// Over the Mersenne-31 field the four entries that `mat_4_spec` makes
/// are the rows of `[2 3 1 1; 1 2 3 1; 1 1 2 3; 3 1 1 2]` times the entries.
pub proof fn lemma_mat_4_is_the_matrix(x: Seq<M31>)
    requires
        x.len() == 4,
    ensures
        ({
            let y = crate::poseidon2::mat_4_spec(x);
            let (a, b, c, d) = (x[0].value as int, x[1].value as int, x[2].value as int, x[3].value as int);
            &&& is_residue(y[0], 2 * a + 3 * b + c + d)
            &&& is_residue(y[1], a + 2 * b + 3 * c + d)
            &&& is_residue(y[2], a + b + 2 * c + 3 * d)
            &&& is_residue(y[3], 3 * a + b + c + 2 * d)
        }),
{
    let (a, b, c, d) = (x[0].value as int, x[1].value as int, x[2].value as int, x[3].value as int);
    lemma_own_residue(x[0]);
    lemma_own_residue(x[1]);
    lemma_own_residue(x[2]);
    lemma_own_residue(x[3]);
    let t01 = x[0].plus_spec(x[1]);
    lemma_plus_residue(x[0], x[1], a, b);
    let t23 = x[2].plus_spec(x[3]);
    lemma_plus_residue(x[2], x[3], c, d);
    let t0123 = t01.plus_spec(t23);
    lemma_plus_residue(t01, t23, a + b, c + d);
    let t01123 = t0123.plus_spec(x[1]);
    lemma_plus_residue(t0123, x[1], a + b + (c + d), b);
    let t01233 = t0123.plus_spec(x[3]);
    lemma_plus_residue(t0123, x[3], a + b + (c + d), d);
    lemma_plus_residue(t01123, t01, a + b + (c + d) + b, a + b);
    lemma_plus_residue(t01123, x[2], a + b + (c + d) + b, c);
    lemma_plus_residue(t01123.plus_spec(x[2]), x[2], a + b + (c + d) + b + c, c);
    lemma_plus_residue(t01233, t23, a + b + (c + d) + d, c + d);
    lemma_plus_residue(t01233, x[0], a + b + (c + d) + d, a);
    lemma_plus_residue(t01233.plus_spec(x[0]), x[0], a + b + (c + d) + d + a, a);
}

/// Over the Mersenne-31 field the four entries that `hl_mat_4_spec` makes
/// are the rows of `[5 7 1 3; 4 6 1 1; 1 3 5 7; 1 1 4 6]` times the entries.
pub proof fn lemma_hl_mat_4_is_the_matrix(x: Seq<M31>)
    requires
        x.len() == 4,
    ensures
        ({
            let y = crate::poseidon2::hl_mat_4_spec(x);
            let (a, b, c, d) = (x[0].value as int, x[1].value as int, x[2].value as int, x[3].value as int);
            &&& is_residue(y[0], 5 * a + 7 * b + c + 3 * d)
            &&& is_residue(y[1], 4 * a + 6 * b + c + d)
            &&& is_residue(y[2], a + 3 * b + 5 * c + 7 * d)
            &&& is_residue(y[3], a + b + 4 * c + 6 * d)
        }),
{
    let (a, b, c, d) = (x[0].value as int, x[1].value as int, x[2].value as int, x[3].value as int);
    lemma_own_residue(x[0]);
    lemma_own_residue(x[1]);
    lemma_own_residue(x[2]);
    lemma_own_residue(x[3]);
    let t0 = x[0].plus_spec(x[1]);
    lemma_plus_residue(x[0], x[1], a, b);
    let t1 = x[2].plus_spec(x[3]);
    lemma_plus_residue(x[2], x[3], c, d);
    let t2 = x[1].plus_spec(x[1]).plus_spec(t1);
    lemma_plus_residue(x[1], x[1], b, b);
    lemma_plus_residue(x[1].plus_spec(x[1]), t1, b + b, c + d);
    let t3 = x[3].plus_spec(x[3]).plus_spec(t0);
    lemma_plus_residue(x[3], x[3], d, d);
    lemma_plus_residue(x[3].plus_spec(x[3]), t0, d + d, a + b);
    let t4 = t1.plus_spec(t1).plus_spec(t1).plus_spec(t1).plus_spec(t3);
    lemma_plus_residue(t1, t1, c + d, c + d);
    lemma_plus_residue(t1.plus_spec(t1), t1, c + d + (c + d), c + d);
    lemma_plus_residue(t1.plus_spec(t1).plus_spec(t1), t1, c + d + (c + d) + (c + d), c + d);
    lemma_plus_residue(
        t1.plus_spec(t1).plus_spec(t1).plus_spec(t1),
        t3,
        c + d + (c + d) + (c + d) + (c + d),
        d + d + (a + b),
    );
    let t5 = t0.plus_spec(t0).plus_spec(t0).plus_spec(t0).plus_spec(t2);
    lemma_plus_residue(t0, t0, a + b, a + b);
    lemma_plus_residue(t0.plus_spec(t0), t0, a + b + (a + b), a + b);
    lemma_plus_residue(t0.plus_spec(t0).plus_spec(t0), t0, a + b + (a + b) + (a + b), a + b);
    lemma_plus_residue(
        t0.plus_spec(t0).plus_spec(t0).plus_spec(t0),
        t2,
        a + b + (a + b) + (a + b) + (a + b),
        b + b + (c + d),
    );
    lemma_plus_residue(
        t3,
        t5,
        d + d + (a + b),
        a + b + (a + b) + (a + b) + (a + b) + (b + b + (c + d)),
    );
    lemma_plus_residue(
        t2,
        t4,
        b + b + (c + d),
        c + d + (c + d) + (c + d) + (c + d) + (d + d + (a + b)),
    );
}

} // verus!
