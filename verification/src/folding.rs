//! The circle bit-reversed order of evaluation vectors, and the FRI folding
//! step that halves a vector held in that order.

use vstd::prelude::*;
use vstd::arithmetic::power2::{pow2, lemma_pow2_pos, lemma_pow2_strictly_increases, lemma_pow2_unfold};
use vstd::arithmetic::div_mod::{lemma_breakdown, lemma_div_denominator, lemma_fundamental_div_mod, lemma_fundamental_div_mod_converse, lemma_small_mod, lemma_basic_div};
use crate::domain::{CircleDomain, CIRCLE_TWO_ADICITY};
use crate::extension::M31Algebra;
use crate::field::{Field, Ring, inverse_or_zero, inverse_or_zero_spec};
use crate::matrix::RowMajorMatrix;
use crate::permuted::RowPermutation;
use crate::mersenne31::M31;
use crate::util::{is_power_of_two, log2_spec, log2_strict_usize, reverse_bits_len, rev_bits_spec, lemma_rev_bits_bound};

verus! {

/// The position in natural order of the entry that stands at position `idx`
/// of a vector of `2^bits` entries in circle bit-reversed order.
///
/// Positions `2 i` and `2 i + 1` hold a point and its conjugate: entry `h`
/// and entry `2^bits - 1 - h` of the natural order, where `h` is the natural
/// position of `i` among half as many.
pub open spec fn circle_bitrev_idx_spec(idx: nat, bits: nat) -> nat
    decreases bits,
{
    if bits == 0 {
        0
    } else {
        let h = circle_bitrev_idx_spec(idx / 2, (bits - 1) as nat);
        if idx % 2 == 0 {
            h
        } else {
            (pow2(bits) - 1 - h) as nat
        }
    }
}

/// The natural position is a position: it is below `2^bits`.
pub proof fn lemma_circle_bitrev_idx_bound(idx: nat, bits: nat)
    ensures
        circle_bitrev_idx_spec(idx, bits) < pow2(bits),
    decreases bits,
{
    lemma_pow2_pos(bits);
    if bits > 0 {
        lemma_circle_bitrev_idx_bound(idx / 2, (bits - 1) as nat);
        lemma_pow2_unfold(bits);
    }
}

/// Two positions that hold the same natural position are the same position.
pub proof fn lemma_circle_bitrev_idx_injective(i: nat, j: nat, bits: nat)
    requires
        i < pow2(bits),
        j < pow2(bits),
        circle_bitrev_idx_spec(i, bits) == circle_bitrev_idx_spec(j, bits),
    ensures
        i == j,
    decreases bits,
{
    if bits == 0 {
        vstd::arithmetic::power2::lemma2_to64();
    } else {
        let k = (bits - 1) as nat;
        lemma_pow2_unfold(bits);
        lemma_circle_bitrev_idx_bound(i / 2, k);
        lemma_circle_bitrev_idx_bound(j / 2, k);
        if i % 2 == j % 2 {
            lemma_circle_bitrev_idx_injective(i / 2, j / 2, k);
        }
    }
}

/// Every natural position stands at some position of the circle
/// bit-reversed order.
pub proof fn lemma_circle_bitrev_idx_surjective(natural: nat, bits: nat) -> (i: nat)
    requires
        natural < pow2(bits),
    ensures
        i < pow2(bits),
        circle_bitrev_idx_spec(i, bits) == natural,
    decreases bits,
{
    if bits == 0 {
        vstd::arithmetic::power2::lemma2_to64();
        0
    } else {
        let k = (bits - 1) as nat;
        lemma_pow2_unfold(bits);
        if natural < pow2(k) {
            let h = lemma_circle_bitrev_idx_surjective(natural, k);
            assert((2 * h) / 2 == h && (2 * h) % 2 == 0);
            2 * h
        } else {
            let mirrored = (pow2(bits) - 1 - natural) as nat;
            let h = lemma_circle_bitrev_idx_surjective(mirrored, k);
            assert((2 * h + 1) / 2 == h && (2 * h + 1) % 2 == 1);
            2 * h + 1
        }
    }
}

/// Neighbours in circle bit-reversed order mirror each other in natural
/// order: positions `2 i` and `2 i + 1` hold natural positions that add
/// up to `2^bits - 1`, as a point and its conjugate do.
pub proof fn lemma_circle_bitrev_idx_pairs(i: nat, bits: nat)
    requires
        bits >= 1,
    ensures
        circle_bitrev_idx_spec(2 * i, bits) == circle_bitrev_idx_spec(i, (bits - 1) as nat),
        circle_bitrev_idx_spec(2 * i, bits) + circle_bitrev_idx_spec(2 * i + 1, bits) == pow2(bits) - 1,
{
    assert((2 * i) / 2 == i && (2 * i) % 2 == 0);
    assert((2 * i + 1) / 2 == i && (2 * i + 1) % 2 == 1);
    lemma_circle_bitrev_idx_bound(i, (bits - 1) as nat);
    lemma_pow2_unfold(bits);
}

/// Among one or two positions, the natural position of a natural position
/// is the position itself.
pub proof fn lemma_circle_bitrev_idx_twice(i: nat, bits: nat)
    requires
        bits <= 1,
        i < pow2(bits),
    ensures
        circle_bitrev_idx_spec(circle_bitrev_idx_spec(i, bits), bits) == i,
{
    vstd::arithmetic::power2::lemma2_to64();
    reveal_with_fuel(circle_bitrev_idx_spec, 3);
    if bits == 1 {
        assert(circle_bitrev_idx_spec(0, 1) == 0);
        assert(circle_bitrev_idx_spec(1, 1) == 1);
    }
}

/// Bringing a vector into circle bit-reversed order twice gives the vector
/// back where every entry is the entry at the natural position of its
/// natural position; every vector of one or two entries is such a vector.
pub proof fn lemma_circle_bitrev_permute_twice<T>(xs: Seq<T>)
    requires
        is_power_of_two(xs.len()),
        xs.len() <= 2 || forall|i: int|
            0 <= i < xs.len() ==> xs[circle_bitrev_idx_spec(
                circle_bitrev_idx_spec(i as nat, log2_spec(xs.len())),
                log2_spec(xs.len()),
            ) as int] == #[trigger] xs[i],
    ensures
        circle_bitrev_permute_spec(circle_bitrev_permute_spec(xs)) == xs,
{
    let bits = log2_spec(xs.len());
    assert(crate::util::is_pow2_of(xs.len(), bits));
    let once = circle_bitrev_permute_spec(xs);
    let twice = circle_bitrev_permute_spec(once);
    assert forall|i: int| 0 <= i < xs.len() implies twice[i] == xs[i] by {
        let j = circle_bitrev_idx_spec(i as nat, bits);
        lemma_circle_bitrev_idx_bound(i as nat, bits);
        lemma_circle_bitrev_idx_bound(j, bits);
        assert(twice[i] == once[j as int]);
        assert(once[j as int] == xs[circle_bitrev_idx_spec(j, bits) as int]);
        if xs.len() <= 2 {
            vstd::arithmetic::power2::lemma2_to64();
            if bits >= 2 {
                lemma_pow2_strictly_increases(1, bits);
            }
            lemma_circle_bitrev_idx_twice(i as nat, bits);
        }
    }
    assert(twice =~= xs);
}

/// What the correction loop makes of the low `k` digits `l`: from the lowest
/// digit up, each digit that is set flips every digit below it.
pub open spec fn flip_below_spec(l: nat, k: nat) -> nat
    decreases k,
{
    if k == 0 {
        0
    } else {
        let m = pow2((k - 1) as nat);
        let d = flip_below_spec(l % m, (k - 1) as nat);
        if (l / m) % 2 == 1 {
            (m + (m - 1 - d)) as nat
        } else {
            d
        }
    }
}

proof fn lemma_flip_below_bound(l: nat, k: nat)
    ensures
        flip_below_spec(l, k) < pow2(k),
    decreases k,
{
    lemma_pow2_pos(k);
    if k > 0 {
        let m = pow2((k - 1) as nat);
        lemma_pow2_pos((k - 1) as nat);
        lemma_flip_below_bound(l % m, (k - 1) as nat);
        lemma_pow2_unfold(k);
    }
}

/// Reversing the digits and then correcting them gives the natural position.
proof fn lemma_flip_of_reverse(x: nat, bits: nat)
    ensures
        flip_below_spec(rev_bits_spec(x, bits), bits) == circle_bitrev_idx_spec(x, bits),
    decreases bits,
{
    if bits > 0 {
        let k = (bits - 1) as nat;
        let m = pow2(k);
        lemma_pow2_pos(k);
        lemma_pow2_unfold(bits);
        let low = rev_bits_spec(x / 2, k);
        lemma_rev_bits_bound(x / 2, k);
        lemma_flip_of_reverse(x / 2, k);
        let b = x % 2;
        let r = rev_bits_spec(x, bits);
        assert(r == b * m + low);
        assert(b * m == m * b) by (nonlinear_arith);
        lemma_fundamental_div_mod_converse(r as int, m as int, b as int, low as int);
        assert(r / m == b);
        assert(r % m == low);
        lemma_circle_bitrev_idx_bound(x / 2, k);
    }
}

/// One step of the correction loop, on the digit of weight `m`.
proof fn lemma_flip_step(j: nat, i: nat)
    ensures
        ({
            let m = pow2(i);
            let h = j / m;
            let d = flip_below_spec(j % m, i);
            let next = if h % 2 == 1 {
                h * m + (m - 1 - d)
            } else {
                (h * m + d) as int
            };
            next == (j / pow2(i + 1)) * pow2(i + 1) + flip_below_spec(j % pow2(i + 1), i + 1)
        }),
{
    let m = pow2(i);
    lemma_pow2_pos(i);
    lemma_pow2_unfold(i + 1);
    let m2 = pow2(i + 1);
    assert(m2 == m * 2) by (nonlinear_arith)
        requires
            m2 == 2 * m,
    ;
    let h = j / m;
    let l = j % m;
    let d = flip_below_spec(l, i);
    lemma_flip_below_bound(l, i);
    lemma_div_denominator(j as int, m as int, 2);
    lemma_breakdown(j as int, m as int, 2);
    let jm = j % m2;
    assert(jm == m * (h % 2) + l);
    lemma_fundamental_div_mod_converse(jm as int, m as int, (h % 2) as int, l as int);
    assert(jm / m == h % 2);
    assert(jm % m == l);
    let hh = j / m2;
    assert(hh == h / 2);
    lemma_fundamental_div_mod(h as int, 2);
    assert(h == 2 * hh + h % 2);
    assert(h * m == hh * m2 + (h % 2) * m) by (nonlinear_arith)
        requires
            h == 2 * hh + h % 2,
            m2 == m * 2,
    ;
    if h % 2 == 1 {
        assert((h % 2) * m == m) by (nonlinear_arith)
            requires
                h % 2 == 1,
        ;
    } else {
        assert((h % 2) * m == 0) by (nonlinear_arith)
            requires
                h % 2 == 0,
        ;
    }
}

/// Maps a position in circle bit-reversed order to the position in natural
/// order: the digits of `idx` are reversed, and then, from the lowest digit
/// up, each digit that is set flips all the digits below it.
pub fn circle_bitrev_idx(idx: usize, bits: usize) -> (r: usize)
    requires
        bits < usize::BITS,
        idx < pow2(bits as nat),
    ensures
        r == circle_bitrev_idx_spec(idx as nat, bits as nat),
        r < pow2(bits as nat),
{
    let ghost j = rev_bits_spec(idx as nat, bits as nat);
    let mut cur: usize = reverse_bits_len(idx, bits);
    proof {
        lemma_rev_bits_bound(idx as nat, bits as nat);
        lemma_pow2_pos(0);
        vstd::arithmetic::power2::lemma2_to64();
        assert(j / 1 == j);
        assert(j % 1 == 0);
        vstd::bits::lemma_usize_pow2_no_overflow(bits as nat);
    }
    let mut i: usize = 0;
    while i < bits
        invariant
            i <= bits,
            bits < usize::BITS,
            j < pow2(bits as nat),
            pow2(bits as nat) < usize::MAX,
            cur == (j / pow2(i as nat)) * pow2(i as nat) + flip_below_spec(j % pow2(i as nat), i as nat),
        decreases bits - i,
    {
        let ghost m = pow2(i as nat);
        let ghost h = j / m;
        let ghost d = flip_below_spec(j % m, i as nat);
        proof {
            lemma_pow2_pos(i as nat);
            lemma_flip_below_bound(j % m, i as nat);
            lemma_flip_step(j, i as nat);
            vstd::bits::lemma_usize_pow2_no_overflow(i as nat);
            vstd::bits::lemma_usize_shl_is_mul(1usize, i);
            lemma_fundamental_div_mod_converse(cur as int, m as int, h as int, d as int);
            assert(cur / (m as usize) == h);
            assert(cur % (m as usize) == d);
        }
        let bit: usize = 1usize << i;
        assert(bit == m);
        let masked: usize = cur & bit;
        proof {
            assert(masked != 0 <==> (cur >> i) % 2 == 1) by (bit_vector)
                requires
                    masked == cur & bit,
                    bit == 1usize << i,
                    i < usize::BITS,
            ;
            vstd::bits::lemma_usize_shr_is_div(cur, i);
        }
        if masked != 0 {
            let ghost before = cur;
            let low_mask: usize = bit - 1;
            let flipped: usize = cur ^ low_mask;
            proof {
                let and_low = before & low_mask;
                assert(flipped == before - and_low + (low_mask - and_low) && and_low <= low_mask
                    && and_low <= before) by (bit_vector)
                    requires
                        flipped == before ^ low_mask,
                        and_low == before & low_mask,
                ;
                vstd::bits::lemma_usize_low_bits_mask_is_mod(before, i as nat);
                assert(vstd::bits::low_bits_mask(i as nat) == low_mask);
                assert(and_low == before % bit);
                assert(h * m + d - d + (m - 1 - d) == h * m + (m - 1 - d));
            }
            cur = flipped;
        }
        i += 1;
    }
    proof {
        lemma_small_mod(j, pow2(bits as nat));
        lemma_basic_div(j as int, pow2(bits as nat) as int);
        lemma_flip_of_reverse(idx as nat, bits as nat);
        lemma_circle_bitrev_idx_bound(idx as nat, bits as nat);
        assert(0 * pow2(bits as nat) == 0);
    }
    cur
}

/// The vector whose entry `i` is entry `circle_bitrev_idx(i)` of `xs`.
pub open spec fn circle_bitrev_permute_spec<T>(xs: Seq<T>) -> Seq<T> {
    Seq::new(xs.len(), |i: int| xs[circle_bitrev_idx_spec(i as nat, log2_spec(xs.len())) as int])
}

/// Brings a vector in natural order into circle bit-reversed order.
pub fn circle_bitrev_permute<T: Copy>(xs: &Vec<T>) -> (r: Vec<T>)
    requires
        is_power_of_two(xs@.len()),
    ensures
        r@ == circle_bitrev_permute_spec(xs@),
        r@.len() == xs@.len(),
{
    let n = xs.len();
    let bits = log2_strict_usize(n);
    let mut out: Vec<T> = Vec::new();
    let mut i: usize = 0;
    while i < n
        invariant
            n == xs@.len(),
            bits == log2_spec(n as nat),
            pow2(bits as nat) == n,
            bits < usize::BITS,
            i <= n,
            out@.len() == i,
            forall|k: int|
                0 <= k < i ==> out@[k] == xs@[circle_bitrev_idx_spec(k as nat, bits as nat) as int],
        decreases n - i,
    {
        let j = circle_bitrev_idx(i, bits);
        out.push(xs[j]);
        i += 1;
    }
    proof {
        assert forall|k: int| 0 <= k < n implies #[trigger] circle_bitrev_idx_spec(
            k as nat,
            bits as nat,
        ) < n by {
            lemma_circle_bitrev_idx_bound(k as nat, bits as nat);
        }
        assert(out@ =~= circle_bitrev_permute_spec(xs@));
    }
    out
}

/// One folded value: half of `lo + hi + beta * (lo - hi) * t`.
pub open spec fn fold_pair_spec<EF: M31Algebra>(lo: EF, hi: EF, beta: EF, t: M31) -> EF {
    lo.plus_spec(hi).plus_spec(beta.times_spec(lo.minus_spec(hi).times_spec(EF::embed_spec(t))))
        .halve_spec()
}

/// The folded vector: each pair of neighbours with its twiddle, for as many
/// pairs as there are twiddles.
pub open spec fn fold_spec<EF: M31Algebra>(values: Seq<EF>, beta: EF, twiddles: Seq<M31>) -> Seq<EF> {
    Seq::new(
        if values.len() / 2 <= twiddles.len() {
            values.len() / 2
        } else {
            twiddles.len()
        },
        |i: int| fold_pair_spec(values[2 * i], values[2 * i + 1], beta, twiddles[i]),
    )
}

/// Folds each row `(lo, hi)` of `evals` with the twiddle of the same
/// position into one value, for as many rows as there are twiddles.
pub fn fold<EF: M31Algebra>(
    evals: &RowMajorMatrix<EF>,
    beta: EF,
    twiddles: &Vec<M31>,
) -> (r: Vec<EF>)
    requires
        evals.wf(),
        evals.width == 2,
    ensures
        r@ == fold_spec(evals.values@, beta, twiddles@),
{
    let h = evals.height();
    let n = if h <= twiddles.len() {
        h
    } else {
        twiddles.len()
    };
    let mut out: Vec<EF> = Vec::new();
    let mut i: usize = 0;
    while i < n
        invariant
            evals.wf(),
            evals.width == 2,
            n <= evals.height_spec(),
            n <= twiddles@.len(),
            i <= n,
            out@.len() == i,
            forall|k: int|
                0 <= k < i ==> out@[k] == fold_pair_spec(
                    evals.values@[2 * k],
                    evals.values@[2 * k + 1],
                    beta,
                    twiddles@[k],
                ),
        decreases n - i,
    {
        let lo = evals.get(i, 0);
        let hi = evals.get(i, 1);
        let sum = lo.plus(hi);
        let diff = lo.minus(hi).times(EF::embed(twiddles[i]));
        out.push(sum.plus(beta.times(diff)).halve());
        i += 1;
    }
    proof {
        assert(out@ =~= fold_spec(evals.values@, beta, twiddles@));
    }
    out
}

/// The twiddles of the first fold of `2 * height` evaluations: for each of
/// the first `height` points of the standard domain of that size, the
/// inverse of its second coordinate, in circle bit-reversed order.
#[verifier::opaque]
pub open spec fn bivariate_twiddles_spec(height: nat) -> Seq<M31> {
    let domain = CircleDomain::standard_spec((log2_spec(height) + 1) as usize);
    circle_bitrev_permute_spec(
        Seq::new(height, |j: int| inverse_or_zero_spec(domain.point_spec(j as nat).im)),
    )
}

/// The twiddles of a later fold of `2 * height` evaluations: for each of the
/// first `height` points of the standard domain of twice that size, the
/// inverse of its first coordinate, in circle bit-reversed order.
#[verifier::opaque]
pub open spec fn univariate_twiddles_spec(height: nat) -> Seq<M31> {
    let domain = CircleDomain::standard_spec((log2_spec(height) + 2) as usize);
    circle_bitrev_permute_spec(
        Seq::new(height, |j: int| inverse_or_zero_spec(domain.point_spec(j as nat).re)),
    )
}

/// There are as many twiddles of the first fold as pairs.
pub proof fn lemma_bivariate_twiddles_len(height: nat, k: nat)
    requires
        height == pow2(k),
    ensures
        bivariate_twiddles_spec(height).len() == height,
{
    reveal(bivariate_twiddles_spec);
}

/// Computes the twiddles of the first fold.
pub fn bivariate_twiddles(height: usize) -> (r: Vec<M31>)
    requires
        is_power_of_two(height as nat),
        log2_spec(height as nat) + 1 < CIRCLE_TWO_ADICITY,
    ensures
        r@ == bivariate_twiddles_spec(height as nat),
        r@.len() == height,
{
    reveal(bivariate_twiddles_spec);
    let log_h = log2_strict_usize(height);
    let domain = CircleDomain::standard(log_h + 1);
    let pts = domain.points();
    proof {
        lemma_pow2_unfold((log_h + 1) as nat);
    }
    let mut nat_order: Vec<M31> = Vec::new();
    let mut j: usize = 0;
    while j < height
        invariant
            j <= height,
            height <= pts@.len(),
            pts@ == domain.points_spec(),
            nat_order@.len() == j,
            forall|k: int|
                0 <= k < j ==> nat_order@[k] == inverse_or_zero_spec(domain.point_spec(k as nat).im),
        decreases height - j,
    {
        nat_order.push(inverse_or_zero(pts[j].im));
        j += 1;
    }
    proof {
        assert(nat_order@ =~= Seq::new(
            height as nat,
            |j: int| inverse_or_zero_spec(domain.point_spec(j as nat).im),
        ));
    }
    circle_bitrev_permute(&nat_order)
}

/// Computes the twiddles of a later fold.
pub fn univariate_twiddles(height: usize) -> (r: Vec<M31>)
    requires
        is_power_of_two(height as nat),
        log2_spec(height as nat) + 2 < CIRCLE_TWO_ADICITY,
    ensures
        r@ == univariate_twiddles_spec(height as nat),
        r@.len() == height,
{
    reveal(univariate_twiddles_spec);
    let log_h = log2_strict_usize(height);
    let domain = CircleDomain::standard(log_h + 2);
    let pts = domain.points();
    proof {
        lemma_pow2_unfold((log_h + 2) as nat);
        lemma_pow2_unfold((log_h + 1) as nat);
    }
    let mut nat_order: Vec<M31> = Vec::new();
    let mut j: usize = 0;
    while j < height
        invariant
            j <= height,
            height <= pts@.len(),
            pts@ == domain.points_spec(),
            nat_order@.len() == j,
            forall|k: int|
                0 <= k < j ==> nat_order@[k] == inverse_or_zero_spec(domain.point_spec(k as nat).re),
        decreases height - j,
    {
        nat_order.push(inverse_or_zero(pts[j].re));
        j += 1;
    }
    proof {
        assert(nat_order@ =~= Seq::new(
            height as nat,
            |j: int| inverse_or_zero_spec(domain.point_spec(j as nat).re),
        ));
    }
    circle_bitrev_permute(&nat_order)
}

/// The first fold of a vector in circle bit-reversed order, given as rows of
/// a point's value and its conjugate's: it takes out the second coordinate.
pub fn fold_bivariate<EF: M31Algebra>(evals: &RowMajorMatrix<EF>, beta: EF) -> (r: Vec<EF>)
    requires
        evals.wf(),
        evals.width == 2,
        is_power_of_two(evals.height_spec()),
        log2_spec(evals.height_spec()) + 1 < CIRCLE_TWO_ADICITY,
    ensures
        r@ == fold_spec(evals.values@, beta, bivariate_twiddles_spec(evals.height_spec())),
        r@.len() == evals.height_spec(),
{
    let twiddles = bivariate_twiddles(evals.height());
    fold(evals, beta, &twiddles)
}

/// A later fold, of rows of the values at `x` and at `-x`: it halves the
/// degree in the first coordinate.
pub fn fold_univariate<EF: M31Algebra>(evals: &RowMajorMatrix<EF>, beta: EF) -> (r: Vec<EF>)
    requires
        evals.wf(),
        evals.width == 2,
        is_power_of_two(evals.height_spec()),
        log2_spec(evals.height_spec()) + 2 < CIRCLE_TWO_ADICITY,
    ensures
        r@ == fold_spec(evals.values@, beta, univariate_twiddles_spec(evals.height_spec())),
        r@.len() == evals.height_spec(),
{
    let twiddles = univariate_twiddles(evals.height());
    fold(evals, beta, &twiddles)
}

/// The permutation of rows that brings a matrix in natural order into
/// circle bit-reversed order.
#[derive(Clone, Copy, Default, Debug)]
pub struct CircleBitrevPermutation;

impl RowPermutation for CircleBitrevPermutation {
    open spec fn height_ok(height: nat) -> bool {
        is_power_of_two(height)
    }

    open spec fn permute_index_spec(r: nat, height: nat) -> nat {
        circle_bitrev_idx_spec(r, log2_spec(height))
    }

    proof fn lemma_permute_index_bound(r: nat, height: nat) {
        lemma_circle_bitrev_idx_bound(r, log2_spec(height));
    }

    fn permute_index(r: usize, height: usize) -> (x: usize) {
        circle_bitrev_idx(r, log2_strict_usize(height))
    }
}

} // verus!
