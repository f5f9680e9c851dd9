//! Permutations by matrices given entry by entry.

use vstd::prelude::*;
use crate::baby_bear::BabyBear;
use crate::field::Ring;
use crate::matrix::weighted_sum_spec;
use crate::poseidon2::{array_of, lemma_array_of};
use crate::symmetric::{MdsPermutation, Permutation};

verus! {

/// A permutation by a square matrix, computed entry by entry.
#[derive(Clone, Copy, Debug)]
pub struct NaiveMds<R: Ring, const WIDTH: usize> {
    pub matrix: [[R; WIDTH]; WIDTH],
}

/// The matrix times the vector: entry `i` is the sum over `j` of
/// `matrix[i][j] * input[j]`, taken from the left.
pub open spec fn naive_mds_spec<R: Ring, const WIDTH: usize>(
    matrix: [[R; WIDTH]; WIDTH],
    input: Seq<R>,
) -> Seq<R> {
    Seq::new(WIDTH as nat, |i: int| weighted_sum_spec(matrix@[i]@, input, WIDTH as nat))
}

/// The matrix whose row `i` is `circulant` turned `i` places to the right,
/// with `diagonal[i]` added on the diagonal.
pub open spec fn circ_and_diag_entry_spec<R: Ring>(
    circulant: Seq<R>,
    diagonal: Seq<R>,
    i: int,
    j: int,
) -> R {
    let c = circulant[(circulant.len() + j - i) % (circulant.len() as int)];
    if i == j {
        c.plus_spec(diagonal[i])
    } else {
        c
    }
}

impl<R: Ring, const WIDTH: usize> NaiveMds<R, WIDTH> {
    pub fn new(matrix: [[R; WIDTH]; WIDTH]) -> (r: Self)
        ensures
            r.matrix == matrix,
    {
        NaiveMds { matrix }
    }

    /// The matrix with the given first row, turned from row to row, and the
    /// given diagonal added to it.
    pub fn from_circ_and_diag(circulant: [R; WIDTH], diagonal: [R; WIDTH]) -> (r: Self)
        requires
            WIDTH <= usize::MAX / 2,
        ensures
            forall|i: int, j: int|
                0 <= i < WIDTH && 0 <= j < WIDTH ==> #[trigger] r.matrix@[i]@[j]
                    == circ_and_diag_entry_spec(circulant@, diagonal@, i, j),
    {
        let mut matrix: [[R; WIDTH]; WIDTH] = [[R::zero();WIDTH];WIDTH];
        let mut i: usize = 0;
        while i < WIDTH
            invariant
                i <= WIDTH,
                WIDTH <= usize::MAX / 2,
                forall|a: int, b: int|
                    0 <= a < i && 0 <= b < WIDTH ==> #[trigger] matrix@[a]@[b]
                        == circ_and_diag_entry_spec(circulant@, diagonal@, a, b),
            decreases WIDTH - i,
        {
            let mut row: [R; WIDTH] = [R::zero();WIDTH];
            let mut j: usize = 0;
            while j < WIDTH
                invariant
                    i < WIDTH,
                    j <= WIDTH,
                    WIDTH <= usize::MAX / 2,
                    forall|b: int|
                        0 <= b < j ==> #[trigger] row@[b] == circ_and_diag_entry_spec(
                            circulant@,
                            diagonal@,
                            i as int,
                            b,
                        ),
                decreases WIDTH - j,
            {
                let c = circulant[(WIDTH + j - i) % WIDTH];
                if i == j {
                    row[j] = c.plus(diagonal[i]);
                } else {
                    row[j] = c;
                }
                j += 1;
            }
            matrix[i] = row;
            i += 1;
        }
        NaiveMds { matrix }
    }
}

/// The sum over `j` of `weights[j] * input[j]`, taken from the left.
pub fn weighted_sum<R: Ring, const WIDTH: usize>(weights: &[R; WIDTH], input: &[R; WIDTH]) -> (r: R)
    ensures
        r == weighted_sum_spec(weights@, input@, WIDTH as nat),
{
    let mut acc = R::zero();
    let mut j: usize = 0;
    while j < WIDTH
        invariant
            j <= WIDTH,
            acc == weighted_sum_spec(weights@, input@, j as nat),
        decreases WIDTH - j,
    {
        acc = acc.plus(weights[j].times(input[j]));
        j += 1;
    }
    acc
}

impl<R: Ring, const WIDTH: usize> Permutation<[R; WIDTH]> for NaiveMds<R, WIDTH> {
    open spec fn permute_spec(&self, input: [R; WIDTH]) -> [R; WIDTH] {
        array_of(naive_mds_spec(self.matrix, input@))
    }

    open spec fn accepts(&self, input: [R; WIDTH]) -> bool {
        true
    }

    fn permute(&self, input: [R; WIDTH]) -> (r: [R; WIDTH]) {
        let mut output: [R; WIDTH] = [R::zero();WIDTH];
        let mut i: usize = 0;
        while i < WIDTH
            invariant
                i <= WIDTH,
                forall|k: int|
                    0 <= k < i ==> output@[k] == weighted_sum_spec(
                        self.matrix@[k]@,
                        input@,
                        WIDTH as nat,
                    ),
            decreases WIDTH - i,
        {
            output[i] = weighted_sum(&self.matrix[i], &input);
            i += 1;
        }
        proof {
            assert(output@ =~= naive_mds_spec(self.matrix, input@));
            lemma_array_of(output);
        }
        output
    }

    fn permute_mut(&self, input: &mut [R; WIDTH]) {
        *input = self.permute(*input);
    }
}

impl<R: Ring, const WIDTH: usize> MdsPermutation<R, WIDTH> for NaiveMds<R, WIDTH> {

}

/// The element of the BabyBear field whose fourth root is adjoined.
pub open spec fn baby_bear_w_spec() -> BabyBear {
    BabyBear::from_u64_spec(11)
}

/// `c0 + c1 X + c2 X^2 + c3 X^3` modulo `X^4 - 11`, over the BabyBear field.
#[derive(Clone, Copy, PartialEq, Eq, Structural, Debug, Hash)]
pub struct BabyBearExt4 {
    pub c0: BabyBear,
    pub c1: BabyBear,
    pub c2: BabyBear,
    pub c3: BabyBear,
}

impl BabyBearExt4 {
    /// The base field element `b` as an element of the extension.
    pub open spec fn embed_spec(b: BabyBear) -> Self {
        BabyBearExt4 {
            c0: b.canon(),
            c1: BabyBear::zero_spec(),
            c2: BabyBear::zero_spec(),
            c3: BabyBear::zero_spec(),
        }
    }

    pub fn embed(b: BabyBear) -> (r: Self)
        ensures
            r == Self::embed_spec(b),
    {
        BabyBearExt4 { c0: b.reduce(), c1: BabyBear::zero(), c2: BabyBear::zero(), c3: BabyBear::zero() }
    }
}

impl Ring for BabyBearExt4 {
    open spec fn canon(self) -> Self {
        BabyBearExt4 {
            c0: self.c0.canon(),
            c1: self.c1.canon(),
            c2: self.c2.canon(),
            c3: self.c3.canon(),
        }
    }

    open spec fn zero_spec() -> Self {
        Self::embed_spec(BabyBear::zero_spec())
    }

    open spec fn one_spec() -> Self {
        Self::embed_spec(BabyBear::one_spec())
    }

    open spec fn from_u64_spec(v: u64) -> Self {
        Self::embed_spec(BabyBear::from_u64_spec(v))
    }

    open spec fn plus_spec(self, rhs: Self) -> Self {
        BabyBearExt4 {
            c0: self.c0.plus_spec(rhs.c0),
            c1: self.c1.plus_spec(rhs.c1),
            c2: self.c2.plus_spec(rhs.c2),
            c3: self.c3.plus_spec(rhs.c3),
        }
    }

    open spec fn minus_spec(self, rhs: Self) -> Self {
        BabyBearExt4 {
            c0: self.c0.minus_spec(rhs.c0),
            c1: self.c1.minus_spec(rhs.c1),
            c2: self.c2.minus_spec(rhs.c2),
            c3: self.c3.minus_spec(rhs.c3),
        }
    }

    open spec fn times_spec(self, rhs: Self) -> Self {
        let w = baby_bear_w_spec();
        let a = self;
        let b = rhs;
        BabyBearExt4 {
            c0: a.c0.times_spec(b.c0).plus_spec(
                w.times_spec(
                    a.c1.times_spec(b.c3).plus_spec(a.c2.times_spec(b.c2)).plus_spec(
                        a.c3.times_spec(b.c1),
                    ),
                ),
            ),
            c1: a.c0.times_spec(b.c1).plus_spec(a.c1.times_spec(b.c0)).plus_spec(
                w.times_spec(a.c2.times_spec(b.c3).plus_spec(a.c3.times_spec(b.c2))),
            ),
            c2: a.c0.times_spec(b.c2).plus_spec(a.c1.times_spec(b.c1)).plus_spec(
                a.c2.times_spec(b.c0),
            ).plus_spec(w.times_spec(a.c3.times_spec(b.c3))),
            c3: a.c0.times_spec(b.c3).plus_spec(a.c1.times_spec(b.c2)).plus_spec(
                a.c2.times_spec(b.c1),
            ).plus_spec(a.c3.times_spec(b.c0)),
        }
    }

    open spec fn negate_spec(self) -> Self {
        BabyBearExt4 {
            c0: self.c0.negate_spec(),
            c1: self.c1.negate_spec(),
            c2: self.c2.negate_spec(),
            c3: self.c3.negate_spec(),
        }
    }

    fn reduce(self) -> (r: Self) {
        BabyBearExt4 {
            c0: self.c0.reduce(),
            c1: self.c1.reduce(),
            c2: self.c2.reduce(),
            c3: self.c3.reduce(),
        }
    }

    fn zero() -> (r: Self) {
        Self::embed(BabyBear::zero())
    }

    fn one() -> (r: Self) {
        Self::embed(BabyBear::one())
    }

    fn from_u64(v: u64) -> (r: Self) {
        Self::embed(BabyBear::from_u64(v))
    }

    fn plus(self, rhs: Self) -> (r: Self) {
        BabyBearExt4 {
            c0: self.c0.plus(rhs.c0),
            c1: self.c1.plus(rhs.c1),
            c2: self.c2.plus(rhs.c2),
            c3: self.c3.plus(rhs.c3),
        }
    }

    fn minus(self, rhs: Self) -> (r: Self) {
        BabyBearExt4 {
            c0: self.c0.minus(rhs.c0),
            c1: self.c1.minus(rhs.c1),
            c2: self.c2.minus(rhs.c2),
            c3: self.c3.minus(rhs.c3),
        }
    }

    fn times(self, rhs: Self) -> (r: Self) {
        let w = BabyBear::from_u64(11);
        let a = self;
        let b = rhs;
        BabyBearExt4 {
            c0: a.c0.times(b.c0).plus(
                w.times(a.c1.times(b.c3).plus(a.c2.times(b.c2)).plus(a.c3.times(b.c1))),
            ),
            c1: a.c0.times(b.c1).plus(a.c1.times(b.c0)).plus(
                w.times(a.c2.times(b.c3).plus(a.c3.times(b.c2))),
            ),
            c2: a.c0.times(b.c2).plus(a.c1.times(b.c1)).plus(a.c2.times(b.c0)).plus(
                w.times(a.c3.times(b.c3)),
            ),
            c3: a.c0.times(b.c3).plus(a.c1.times(b.c2)).plus(a.c2.times(b.c1)).plus(
                a.c3.times(b.c0),
            ),
        }
    }

    fn negate(self) -> (r: Self) {
        BabyBearExt4 {
            c0: self.c0.negate(),
            c1: self.c1.negate(),
            c2: self.c2.negate(),
            c3: self.c3.negate(),
        }
    }

    fn same(self, rhs: Self) -> (r: bool) {
        self.c0.same(rhs.c0) && self.c1.same(rhs.c1) && self.c2.same(rhs.c2) && self.c3.same(rhs.c3)
    }

    proof fn lemma_results_reduced(a: Self, b: Self, v: u64) {
        let w = baby_bear_w_spec();
        let z = BabyBear::zero_spec();
        BabyBear::lemma_results_reduced(a.c0, b.c0, v);
        BabyBear::lemma_results_reduced(a.c1, b.c1, v);
        BabyBear::lemma_results_reduced(a.c2, b.c2, v);
        BabyBear::lemma_results_reduced(a.c3, b.c3, v);
        BabyBear::lemma_results_reduced(BabyBear::one_spec(), z, v);
        BabyBear::lemma_results_reduced(
            a.c0.times_spec(b.c0),
            w.times_spec(
                a.c1.times_spec(b.c3).plus_spec(a.c2.times_spec(b.c2)).plus_spec(
                    a.c3.times_spec(b.c1),
                ),
            ),
            v,
        );
        BabyBear::lemma_results_reduced(
            a.c0.times_spec(b.c1).plus_spec(a.c1.times_spec(b.c0)),
            w.times_spec(a.c2.times_spec(b.c3).plus_spec(a.c3.times_spec(b.c2))),
            v,
        );
        BabyBear::lemma_results_reduced(
            a.c0.times_spec(b.c2).plus_spec(a.c1.times_spec(b.c1)).plus_spec(a.c2.times_spec(b.c0)),
            w.times_spec(a.c3.times_spec(b.c3)),
            v,
        );
        BabyBear::lemma_results_reduced(
            a.c0.times_spec(b.c3).plus_spec(a.c1.times_spec(b.c2)).plus_spec(a.c2.times_spec(b.c1)),
            a.c3.times_spec(b.c0),
            v,
        );
    }
}

/// The first row of the circulant matrix of width sixteen.
pub const MATRIX_CIRC_MDS_16_BABYBEAR: [u64; 16] = [
    0x07801000,
    0x4ACAAC32,
    0x6A709B76,
    0x20413E94,
    0x00928499,
    0x31C34CA3,
    0x03BBC192,
    0x3F20868B,
    0x257FFAAB,
    0x5F05F559,
    0x55B43EA9,
    0x2BC659ED,
    0x2C6D7501,
    0x1D110184,
    0x0E1F608D,
    0x2032F0C6,
];

/// Row `i` of the circulant matrix whose first row is `first_row`: the
/// first row turned `i` places to the right.
pub open spec fn circulant_row_spec(first_row: Seq<u64>, i: int) -> Seq<BabyBearExt4> {
    Seq::new(
        first_row.len(),
        |j: int|
            BabyBearExt4::from_u64_spec(first_row[(first_row.len() + j - i) % (first_row.len() as int)]),
    )
}

/// The circulant matrix times the vector.
pub open spec fn circulant_spec(first_row: Seq<u64>, input: Seq<BabyBearExt4>) -> Seq<BabyBearExt4> {
    Seq::new(
        input.len(),
        |i: int| weighted_sum_spec(circulant_row_spec(first_row, i), input, input.len()),
    )
}

/// The circulant matrix of width sixteen over the quartic extension of the
/// BabyBear field.
#[derive(Clone, Copy, Default, Debug)]
pub struct MdsMatrixBabyBearExtension;

impl Permutation<[BabyBearExt4; 16]> for MdsMatrixBabyBearExtension {
    open spec fn permute_spec(&self, input: [BabyBearExt4; 16]) -> [BabyBearExt4; 16] {
        array_of(circulant_spec(MATRIX_CIRC_MDS_16_BABYBEAR@, input@))
    }

    open spec fn accepts(&self, input: [BabyBearExt4; 16]) -> bool {
        true
    }

    fn permute(&self, input: [BabyBearExt4; 16]) -> (r: [BabyBearExt4; 16]) {
        let mut output: [BabyBearExt4; 16] = [BabyBearExt4::zero();16];
        let mut i: usize = 0;
        while i < 16
            invariant
                i <= 16,
                forall|k: int|
                    0 <= k < i ==> output@[k] == weighted_sum_spec(
                        circulant_row_spec(MATRIX_CIRC_MDS_16_BABYBEAR@, k),
                        input@,
                        16,
                    ),
            decreases 16 - i,
        {
            let mut row: [BabyBearExt4; 16] = [BabyBearExt4::zero();16];
            let mut j: usize = 0;
            while j < 16
                invariant
                    i < 16,
                    j <= 16,
                    forall|b: int|
                        0 <= b < j ==> row@[b] == circulant_row_spec(
                            MATRIX_CIRC_MDS_16_BABYBEAR@,
                            i as int,
                        )[b],
                decreases 16 - j,
            {
                row[j] = BabyBearExt4::from_u64(MATRIX_CIRC_MDS_16_BABYBEAR[(16 + j - i) % 16]);
                j += 1;
            }
            proof {
                assert(row@ =~= circulant_row_spec(MATRIX_CIRC_MDS_16_BABYBEAR@, i as int));
            }
            output[i] = weighted_sum(&row, &input);
            i += 1;
        }
        proof {
            assert(output@ =~= circulant_spec(MATRIX_CIRC_MDS_16_BABYBEAR@, input@));
            lemma_array_of(output);
        }
        output
    }

    fn permute_mut(&self, input: &mut [BabyBearExt4; 16]) {
        *input = self.permute(*input);
    }
}

impl MdsPermutation<BabyBearExt4, 16> for MdsMatrixBabyBearExtension {

}

} // verus!
