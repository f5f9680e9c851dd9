use circle_pcs::complex::Complex;
use circle_pcs::domain::{circle_two_adic_generator, univariate_to_point, v_n, CircleDomain};
use circle_pcs::extension::{Ext3, M31Algebra};
use circle_pcs::field::{
    batch_multiplicative_inverse, inverse_or_zero, pow, square_times, sum, Field, Ring,
};
use circle_pcs::mersenne31::{M31, P};
use p3_field::extension::{BinomialExtensionField, ComplexExtendable, HasFrobenius};
use p3_field::{BasedVectorSpace, Field as OutsideField, PrimeCharacteristicRing, PrimeField32};

type OutsideM31 = p3_mersenne_31::Mersenne31;
type OutsideExt = BinomialExtensionField<OutsideM31, 3>;

fn values(seed: u64, n: usize) -> Vec<u32> {
    let mut s = seed;
    (0..n)
        .map(|_| {
            s = s.wrapping_mul(6364136223846793005).wrapping_add(1442695040888963407);
            ((s >> 33) % (P as u64)) as u32
        })
        .collect()
}

fn outside(e: Ext3) -> OutsideExt {
    OutsideExt::new([
        OutsideM31::new(e.c0.value),
        OutsideM31::new(e.c1.value),
        OutsideM31::new(e.c2.value),
    ])
}

fn inside(e: OutsideExt) -> Ext3 {
    let s: &[OutsideM31] = e.as_basis_coefficients_slice();
    Ext3::new(
        M31::new(s[0].as_canonical_u32()),
        M31::new(s[1].as_canonical_u32()),
        M31::new(s[2].as_canonical_u32()),
    )
}

#[test]
fn mersenne31_arithmetic_is_exact() {
    let a = M31::new(P - 1);
    let b = M31::new(5);
    assert_eq!(a.plus(b), M31::new(4));
    assert_eq!(b.minus(a), M31::new(6));
    assert_eq!(a.times(a), M31::new(1));
    assert_eq!(a.negate(), M31::new(1));
    assert_eq!(M31::new(7).halve(), M31::new(1073741827));
    assert_eq!(M31::new(7).halve().plus(M31::new(7).halve()), M31::new(7));
    assert_eq!(M31::new(P), M31::zero());
    assert_eq!(M31::from_u64(u64::MAX), M31::new((u64::MAX % (P as u64)) as u32));
    assert!(M31 { value: P }.same(M31::zero()));
    assert_eq!(M31 { value: u32::MAX }.as_canonical_u32(), 1);
}

#[test]
fn mersenne31_inverse_is_the_inverse() {
    assert_eq!(M31::zero().try_inverse(), None);
    assert_eq!(M31 { value: P }.try_inverse(), None);
    assert_eq!(M31::new(2).try_inverse(), Some(M31::new(1 << 30)));
    for v in values(1, 50) {
        let x = M31::new(v);
        if v != 0 {
            let y = x.try_inverse().unwrap();
            assert!(y.value < P);
            assert_eq!(x.times(y), M31::one());
        }
    }
    assert_eq!(inverse_or_zero(M31::zero()), M31::zero());
    assert_eq!(inverse_or_zero(M31::new(2)), M31::new(1 << 30));
}

#[test]
fn extension_arithmetic_agrees_with_the_field_crate() {
    let v = values(7, 60);
    for c in v.chunks(6) {
        let a = Ext3::new(M31::new(c[0]), M31::new(c[1]), M31::new(c[2]));
        let b = Ext3::new(M31::new(c[3]), M31::new(c[4]), M31::new(c[5]));
        assert_eq!(a.plus(b), inside(outside(a) + outside(b)));
        assert_eq!(a.minus(b), inside(outside(a) - outside(b)));
        assert_eq!(a.times(b), inside(outside(a) * outside(b)));
        assert_eq!(a.negate(), inside(-outside(a)));
        assert_eq!(a.halve(), inside(outside(a).halve()));
        assert_eq!(a.frobenius(), inside(HasFrobenius::<OutsideM31>::frobenius(&outside(a))));
        assert_eq!(a.try_inverse().unwrap(), inside(outside(a).inverse()));
        assert_eq!(a.times(a.try_inverse().unwrap()), Ext3::one());
        assert_eq!(a.times_base(b.c0), a.times(Ext3::embed(b.c0)));
    }
    assert_eq!(Ext3::zero().try_inverse(), None);
    // X * X^2 = X^3 = 5.
    let x = Ext3::new(M31::zero(), M31::one(), M31::zero());
    assert_eq!(x.times(x).times(x), Ext3::embed(M31::new(5)));
}

#[test]
fn powers_and_sums_are_exact() {
    assert_eq!(pow(M31::new(3), 0), M31::one());
    assert_eq!(pow(M31::new(3), 5), M31::new(243));
    assert_eq!(square_times(M31::new(3), 3), M31::new(6561));
    assert_eq!(sum(&vec![M31::new(1), M31::new(2), M31::new(P - 1)]), M31::new(2));
    assert_eq!(sum::<M31>(&vec![]), M31::zero());
    assert_eq!(
        batch_multiplicative_inverse(&vec![M31::new(2), M31::new(4)]),
        Some(vec![M31::new(1 << 30), M31::new(1 << 29)])
    );
    assert_eq!(batch_multiplicative_inverse(&vec![M31::new(2), M31::zero()]), None);
}

#[test]
fn circle_generators_agree_with_the_field_crate() {
    for bits in 0..=31usize {
        let g = circle_two_adic_generator(bits);
        let o = OutsideM31::circle_two_adic_generator(bits);
        let s: &[OutsideM31] = o.as_basis_coefficients_slice();
        assert_eq!(g.re.value, s[0].as_canonical_u32());
        assert_eq!(g.im.value, s[1].as_canonical_u32());
        assert_eq!(g.norm(), M31::one());
    }
    assert_eq!(circle_two_adic_generator(0), Complex::new(M31::one(), M31::zero()));
    assert_eq!(circle_two_adic_generator(1), Complex::new(M31::new(P - 1), M31::zero()));
}

#[test]
fn standard_domain_points_are_the_odd_powers_of_the_shift() {
    for log_n in 0..6usize {
        let domain = CircleDomain::standard(log_n);
        let points = domain.points();
        assert_eq!(points.len(), 1 << log_n);
        let s = domain.shift;
        let s2 = s.rotate(s);
        let mut p = s;
        for (i, q) in points.iter().enumerate() {
            assert_eq!(*q, if i == 0 { s } else { p });
            assert_eq!(domain.point(i), *q);
            assert_eq!(q.norm(), M31::one());
            assert_eq!(domain.vanishing(*q).reduce(), M31::zero());
            p = p.rotate(s2);
        }
    }
    assert!(CircleDomain::standard(3).same(&CircleDomain::standard(3)));
    assert!(!CircleDomain::standard(3).same(&CircleDomain::standard(4)));
    assert_eq!(CircleDomain::standard(3), CircleDomain::new(3, circle_two_adic_generator(4)));
}

#[test]
fn v_n_doubles_the_first_coordinate() {
    let x = M31::new(12345);
    assert_eq!(v_n(x, 0), x);
    assert_eq!(v_n(x, 1), x);
    // 2 * 12345^2 - 1
    assert_eq!(v_n(x, 2), M31::new(304798049));
    assert_eq!(v_n(x, 3), v_n(v_n(x, 2), 2));
}

#[test]
fn univariate_to_point_lands_on_the_circle() {
    for v in values(11, 20) {
        let p = univariate_to_point(M31::new(v)).unwrap();
        assert_eq!(p.norm(), M31::one());
    }
    // t = 1: ((1 - 1) / 2, 2 / 2) = (0, 1)
    assert_eq!(univariate_to_point(M31::one()), Some(Complex::new(M31::zero(), M31::one())));
    let t = Ext3::new(M31::new(3), M31::new(4), M31::new(5));
    assert_eq!(univariate_to_point(t).unwrap().norm(), Ext3::one());
}
