//! The prime field of order `2^31 - 2^27 + 1`, held in Montgomery form.

use vstd::prelude::*;
use crate::field::Ring;

verus! {

/// The prime `2^31 - 2^27 + 1`.
pub const BABY_BEAR_P: u32 = 0x7800_0001;

/// `2^32` modulo the prime: the Montgomery form of one.
pub const MONTY_ONE: u32 = 268435454;

/// The inverse of `2^32` modulo the prime.
pub const MONTY_R_INV: u32 = 943718400;

/// An element `x` of the field, held as any `u32` congruent to `x * 2^32`.
#[derive(Clone, Copy, PartialEq, Eq, Structural, Debug, Hash)]
pub struct BabyBear {
    pub value: u32,
}

/// `t / 2^32` modulo the prime.
pub open spec fn monty_reduce_spec(t: u64) -> u32 {
    (((t % (BABY_BEAR_P as u64)) * MONTY_R_INV) % (BABY_BEAR_P as int)) as u32
}

/// `x * 2^32` modulo the prime.
pub open spec fn to_monty_spec(x: u32) -> u32 {
    (((x % BABY_BEAR_P) * MONTY_ONE) % (BABY_BEAR_P as int)) as u32
}

/// Takes a product of two Montgomery forms back to a Montgomery form.
pub fn monty_reduce(t: u64) -> (r: u32)
    ensures
        r == monty_reduce_spec(t),
        r < BABY_BEAR_P,
{
    let a: u64 = t % (BABY_BEAR_P as u64);
    assert(a * 943718400 <= 0x7800_0000 * 943718400) by (nonlinear_arith)
        requires
            a <= 0x7800_0000,
    ;
    ((a * (MONTY_R_INV as u64)) % (BABY_BEAR_P as u64)) as u32
}

/// The Montgomery form of `x`.
pub fn to_monty(x: u32) -> (r: u32)
    ensures
        r == to_monty_spec(x),
        r < BABY_BEAR_P,
{
    let a: u64 = (x % BABY_BEAR_P) as u64;
    assert(a * 268435454 <= 0x7800_0000 * 268435454) by (nonlinear_arith)
        requires
            a <= 0x7800_0000,
    ;
    ((a * (MONTY_ONE as u64)) % (BABY_BEAR_P as u64)) as u32
}

/// The field elements with the given values.
pub open spec fn to_babybear_array_spec<const N: usize>(input: [u32; N]) -> Seq<BabyBear> {
    Seq::new(N as nat, |i: int| BabyBear { value: to_monty_spec(input@[i]) })
}

/// The field elements with the given values.
pub fn to_babybear_array<const N: usize>(input: [u32; N]) -> (r: [BabyBear; N])
    ensures
        r@ == to_babybear_array_spec(input),
{
    let mut out: [BabyBear; N] = [BabyBear { value: 0 };N];
    let mut i: usize = 0;
    while i < N
        invariant
            i <= N,
            forall|k: int| 0 <= k < i ==> out@[k] == (BabyBear { value: to_monty_spec(input@[k]) }),
        decreases N - i,
    {
        out[i] = BabyBear { value: to_monty(input[i]) };
        i += 1;
    }
    proof {
        assert(out@ =~= to_babybear_array_spec(input));
    }
    out
}

impl BabyBear {
    /// The element with the given value.
    pub fn from_canonical_u32(x: u32) -> (r: Self)
        ensures
            r == (BabyBear { value: to_monty_spec(x) }),
    {
        BabyBear { value: to_monty(x) }
    }

    /// The element, as the number below the prime that it is.
    pub fn as_canonical_u32(self) -> (r: u32)
        ensures
            r == monty_reduce_spec(self.value as u64),
            r < BABY_BEAR_P,
    {
        monty_reduce(self.value as u64)
    }

    /// The held value reduced.
    pub open spec fn reduced(self) -> nat {
        (self.value % BABY_BEAR_P) as nat
    }
}

impl Ring for BabyBear {
    open spec fn canon(self) -> Self {
        BabyBear { value: self.value % BABY_BEAR_P }
    }

    open spec fn zero_spec() -> Self {
        BabyBear { value: 0 }
    }

    open spec fn one_spec() -> Self {
        BabyBear { value: MONTY_ONE }
    }

    open spec fn from_u64_spec(v: u64) -> Self {
        BabyBear { value: to_monty_spec((v % (BABY_BEAR_P as u64)) as u32) }
    }

    open spec fn plus_spec(self, rhs: Self) -> Self {
        BabyBear { value: ((self.reduced() + rhs.reduced()) % (BABY_BEAR_P as nat)) as u32 }
    }

    open spec fn minus_spec(self, rhs: Self) -> Self {
        BabyBear {
            value: ((self.reduced() + BABY_BEAR_P - rhs.reduced()) % (BABY_BEAR_P as int)) as u32,
        }
    }

    open spec fn times_spec(self, rhs: Self) -> Self {
        BabyBear { value: monty_reduce_spec((self.reduced() * rhs.reduced()) as u64) }
    }

    open spec fn negate_spec(self) -> Self {
        BabyBear { value: ((BABY_BEAR_P - self.reduced()) % (BABY_BEAR_P as int)) as u32 }
    }

    fn reduce(self) -> (r: Self) {
        BabyBear { value: self.value % BABY_BEAR_P }
    }

    fn zero() -> (r: Self) {
        BabyBear { value: 0 }
    }

    fn one() -> (r: Self) {
        BabyBear { value: MONTY_ONE }
    }

    fn from_u64(v: u64) -> (r: Self) {
        BabyBear { value: to_monty((v % (BABY_BEAR_P as u64)) as u32) }
    }

    fn plus(self, rhs: Self) -> (r: Self) {
        let s: u64 = (self.value % BABY_BEAR_P) as u64 + (rhs.value % BABY_BEAR_P) as u64;
        BabyBear { value: (s % (BABY_BEAR_P as u64)) as u32 }
    }

    fn minus(self, rhs: Self) -> (r: Self) {
        let s: u64 = (self.value % BABY_BEAR_P) as u64 + (BABY_BEAR_P as u64) - (rhs.value
            % BABY_BEAR_P) as u64;
        BabyBear { value: (s % (BABY_BEAR_P as u64)) as u32 }
    }

    fn times(self, rhs: Self) -> (r: Self) {
        let a: u64 = (self.value % BABY_BEAR_P) as u64;
        let b: u64 = (rhs.value % BABY_BEAR_P) as u64;
        assert(a * b <= 0x7800_0000 * 0x7800_0000) by (nonlinear_arith)
            requires
                a <= 0x7800_0000,
                b <= 0x7800_0000,
        ;
        BabyBear { value: monty_reduce(a * b) }
    }

    fn negate(self) -> (r: Self) {
        BabyBear { value: (BABY_BEAR_P - self.value % BABY_BEAR_P) % BABY_BEAR_P }
    }

    fn same(self, rhs: Self) -> (r: bool) {
        self.value % BABY_BEAR_P == rhs.value % BABY_BEAR_P
    }

    proof fn lemma_results_reduced(a: Self, b: Self, v: u64) {
        vstd::arithmetic::div_mod::lemma_mod_twice(a.value as int, BABY_BEAR_P as int);
    }
}

} // verus!
