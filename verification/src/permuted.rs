//! A matrix seen through a permutation of its rows.

use vstd::prelude::*;
use core::marker::PhantomData;
use crate::matrix::RowMajorMatrix;

verus! {

/// A way to renumber the rows of a matrix of a given height.
pub trait RowPermutation {
    /// The heights that the permutation is defined for.
    spec fn height_ok(height: nat) -> bool;

    /// The row of the matrix underneath that row `r` of the view shows.
    spec fn permute_index_spec(r: nat, height: nat) -> nat;

    /// A row of the view is a row of the matrix.
    proof fn lemma_permute_index_bound(r: nat, height: nat)
        requires
            Self::height_ok(height),
            r < height,
        ensures
            Self::permute_index_spec(r, height) < height,
    ;

    fn permute_index(r: usize, height: usize) -> (x: usize)
        requires
            Self::height_ok(height as nat),
            r < height,
        ensures
            x == Self::permute_index_spec(r as nat, height as nat),
    ;
}

/// A matrix whose row `r` is row `permute_index(r)` of the matrix underneath.
pub struct PermutedMatrix<Perm, T> {
    pub inner: RowMajorMatrix<T>,
    pub _phantom: PhantomData<Perm>,
}

impl<Perm: RowPermutation, T: Copy> PermutedMatrix<Perm, T> {
    pub fn new(inner: RowMajorMatrix<T>) -> (r: Self)
        ensures
            r.inner == inner,
    {
        PermutedMatrix { inner, _phantom: PhantomData }
    }

    /// The matrix underneath has whole rows, as many as the permutation takes.
    pub open spec fn wf(self) -> bool {
        self.inner.wf() && Perm::height_ok(self.inner.height_spec())
    }

    /// Row `r` of the view.
    pub open spec fn row_spec(self, r: int) -> Seq<T> {
        self.inner.row_spec(Perm::permute_index_spec(r as nat, self.inner.height_spec()) as int)
    }

    pub fn width(&self) -> (r: usize)
        ensures
            r == self.inner.width,
    {
        self.inner.width()
    }

    pub fn height(&self) -> (r: usize)
        ensures
            r == self.inner.height_spec(),
    {
        self.inner.height()
    }

    pub fn get(&self, r: usize, c: usize) -> (x: T)
        requires
            self.wf(),
            r < self.inner.height_spec(),
            c < self.inner.width,
        ensures
            x == self.row_spec(r as int)[c as int],
    {
        let h = self.inner.height();
        proof {
            Perm::lemma_permute_index_bound(r as nat, h as nat);
            self.inner.lemma_entry_in_bounds(
                Perm::permute_index_spec(r as nat, h as nat) as int,
                c as int,
            );
        }
        self.inner.get(Perm::permute_index(r, h), c)
    }

    /// A copy of row `r` of the view.
    pub fn row(&self, r: usize) -> (x: Vec<T>)
        requires
            self.wf(),
            r < self.inner.height_spec(),
        ensures
            x@ == self.row_spec(r as int),
    {
        let h = self.inner.height();
        proof {
            Perm::lemma_permute_index_bound(r as nat, h as nat);
        }
        self.inner.row(Perm::permute_index(r, h))
    }

    /// Row `r` of the view, as `row` gives it.
    pub fn row_slice(&self, r: usize) -> (x: Vec<T>)
        requires
            self.wf(),
            r < self.inner.height_spec(),
        ensures
            x@ == self.row_spec(r as int),
    {
        self.row(r)
    }

    /// The view written out as a matrix of its own.
    pub fn to_row_major_matrix(&self) -> (m: RowMajorMatrix<T>)
        requires
            self.wf(),
        ensures
            m.width == self.inner.width,
            m.values@.len() == self.inner.values@.len(),
            m.wf(),
            m.height_spec() == self.inner.height_spec(),
            forall|r: int, c: int|
                0 <= r < self.inner.height_spec() && 0 <= c < self.inner.width ==> #[trigger] m.entry(
                    r,
                    c,
                ) == self.row_spec(r)[c],
    {
        let h = self.inner.height();
        let w = self.inner.width;
        let mut values: Vec<T> = Vec::new();
        let mut r: usize = 0;
        while r < h
            invariant
                self.wf(),
                h == self.inner.height_spec(),
                w == self.inner.width,
                r <= h,
                values@.len() == r * w,
                forall|i: int, c: int|
                    0 <= i < r && 0 <= c < w ==> #[trigger] values@[i * w + c] == self.row_spec(i)[c],
            decreases h - r,
        {
            let row = self.row(r);
            let ghost before = values@;
            let mut c: usize = 0;
            proof {
                Perm::lemma_permute_index_bound(r as nat, h as nat);
                self.inner.lemma_entry_in_bounds(
                    Perm::permute_index_spec(r as nat, h as nat) as int,
                    0,
                );
            }
            while c < w
                invariant
                    c <= w,
                    row@.len() == w,
                    values@.len() == r * w + c,
                    values@.take(r * w) == before,
                    before.len() == r * w,
                    forall|k: int| 0 <= k < c ==> values@[r * w + k] == row@[k],
                decreases w - c,
            {
                values.push(row[c]);
                assert(values@.take(r * w) =~= before);
                c += 1;
            }
            proof {
                assert forall|i: int, k: int| 0 <= i < r + 1 && 0 <= k < w implies #[trigger] values@[i
                    * w + k] == self.row_spec(i)[k] by {
                    if i < r {
                        assert(i * w + k < r * w) by (nonlinear_arith)
                            requires
                                0 <= i < r,
                                0 <= k < w,
                        ;
                        assert(values@[i * w + k] == values@.take(r * w)[i * w + k]);
                    }
                }
                assert((r + 1) * w == r * w + w) by (nonlinear_arith);
            }
            r += 1;
        }
        proof {
            let n = self.inner.values@.len() as int;
            if w > 0 {
                vstd::arithmetic::div_mod::lemma_fundamental_div_mod(n, w as int);
                assert(h * w == w * h) by (nonlinear_arith);
                vstd::arithmetic::div_mod::lemma_fundamental_div_mod_converse(
                    (h * w) as int,
                    w as int,
                    h as int,
                    0,
                );
            } else {
                assert(h == 0);
            }
        }
        RowMajorMatrix { values, width: w }
    }
}

} // verus!
