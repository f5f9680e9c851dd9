//! Powers of two, exact logarithms and bit reversal of indices.

use vstd::prelude::*;
use vstd::arithmetic::power2::{pow2, lemma_pow2_pos, lemma_pow2_unfold, lemma_pow2_strictly_increases};

verus! {

/// The number whose low `bits` binary digits are those of `x` in reverse order.
pub open spec fn rev_bits_spec(x: nat, bits: nat) -> nat
    decreases bits,
{
    if bits == 0 {
        0
    } else {
        (x % 2) * pow2((bits - 1) as nat) + rev_bits_spec(x / 2, (bits - 1) as nat)
    }
}

/// Reversing `bits` digits gives a number of at most `bits` digits.
pub proof fn lemma_rev_bits_bound(x: nat, bits: nat)
    ensures
        rev_bits_spec(x, bits) < pow2(bits),
    decreases bits,
{
    lemma_pow2_pos(bits);
    if bits > 0 {
        lemma_rev_bits_bound(x / 2, (bits - 1) as nat);
        lemma_pow2_unfold(bits);
        assert((x % 2) * pow2((bits - 1) as nat) <= pow2((bits - 1) as nat)) by (nonlinear_arith)
            requires
                x % 2 <= 1,
        ;
    }
}

/// Whether `n` is two to the power `k`.
pub open spec fn is_pow2_of(n: nat, k: nat) -> bool {
    n == pow2(k)
}

/// Whether `n` is a power of two.
pub open spec fn is_power_of_two(n: nat) -> bool {
    exists|k: nat| is_pow2_of(n, k)
}

/// The exponent of a power of two.
pub open spec fn log2_spec(n: nat) -> nat {
    choose|k: nat| is_pow2_of(n, k)
}

/// A power of two has one exponent only.
pub proof fn lemma_log2_unique(n: nat, k: nat)
    requires
        n == pow2(k),
    ensures
        is_power_of_two(n),
        log2_spec(n) == k,
{
    assert(is_pow2_of(n, k));
    let c = log2_spec(n);
    assert(is_pow2_of(n, c));
    if c < k {
        lemma_pow2_strictly_increases(c, k);
    }
    if k < c {
        lemma_pow2_strictly_increases(k, c);
    }
}

/// Calls `p3_util::log2_strict_usize`, which panics unless `n` is a power
/// of two.
///
/// Claims that the result is the exponent of `n`.
#[verifier::external_body]
pub(crate) fn log2_strict_usize(n: usize) -> (r: usize)
    requires
        is_power_of_two(n as nat),
    ensures
        r == log2_spec(n as nat),
        pow2(r as nat) == n,
        r < usize::BITS,
{
    p3_util::log2_strict_usize(n)
}

/// Calls `p3_util::reverse_bits_len`, which reverses the whole word and
/// shifts the result down to `bit_len` digits.
///
/// Claims that for `x` of at most `bit_len` digits the result is those digits
/// reversed.
#[verifier::external_body]
pub(crate) fn reverse_bits_len(x: usize, bit_len: usize) -> (r: usize)
    requires
        bit_len < usize::BITS,
        x < pow2(bit_len as nat),
    ensures
        r == rev_bits_spec(x as nat, bit_len as nat),
{
    p3_util::reverse_bits_len(x, bit_len)
}

/// Two to the power `k`.
pub fn pow2_usize(k: usize) -> (r: usize)
    requires
        pow2(k as nat) <= usize::MAX,
    ensures
        r == pow2(k as nat),
{
    let mut r: usize = 1;
    let mut i: usize = 0;
    proof {
        vstd::arithmetic::power2::lemma2_to64();
    }
    while i < k
        invariant
            i <= k,
            r == pow2(i as nat),
            pow2(k as nat) <= usize::MAX,
        decreases k - i,
    {
        proof {
            lemma_pow2_unfold((i + 1) as nat);
            if i + 1 < k {
                lemma_pow2_strictly_increases((i + 1) as nat, k as nat);
            }
        }
        r = r * 2;
        i += 1;
    }
    r
}

/// The least power of two that is not below `n`.
pub fn next_power_of_two(n: usize) -> (r: usize)
    requires
        n <= usize::MAX / 2 + 1,
    ensures
        is_power_of_two(r as nat),
        n <= r,
        r == 1 || r / 2 < n,
{
    let mut r: usize = 1;
    let ghost mut k: nat = 0;
    proof {
        vstd::arithmetic::power2::lemma2_to64();
        assert(is_pow2_of(1, 0));
    }
    while r < n
        invariant
            r == pow2(k),
            n <= usize::MAX / 2 + 1,
            r == 1 || r / 2 < n,
            r >= 1,
        decreases usize::MAX - r,
    {
        proof {
            lemma_pow2_unfold(k + 1);
        }
        r = r * 2;
        proof {
            k = k + 1;
        }
    }
    proof {
        assert(is_pow2_of(r as nat, k));
    }
    r
}

/// A copy of a vector.
pub fn copy_vec<T: Copy>(v: &Vec<T>) -> (r: Vec<T>)
    ensures
        r@ == v@,
{
    let mut out: Vec<T> = Vec::new();
    let mut i: usize = 0;
    while i < v.len()
        invariant
            i <= v@.len(),
            out@ == v@.take(i as int),
        decreases v@.len() - i,
    {
        out.push(v[i]);
        assert(v@.take(i + 1) =~= v@.take(i as int).push(v@[i as int]));
        i += 1;
    }
    assert(v@.take(v@.len() as int) =~= v@);
    out
}

} // verus!
