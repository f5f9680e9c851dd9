//! Dense matrices held row by row, and sums down their columns.

use vstd::prelude::*;
use crate::field::Ring;

verus! {

/// The numbers of columns and of rows of a matrix.
#[derive(Clone, Copy, PartialEq, Eq, Structural, Debug)]
pub struct Dimensions {
    pub width: usize,
    pub height: usize,
}

/// A matrix as a mathematical value: its entries row after row, and its
/// number of columns.
pub struct MatrixView<T> {
    pub values: Seq<T>,
    pub width: nat,
}

impl<T> MatrixView<T> {
    pub open spec fn height_spec(self) -> nat {
        if self.width == 0 {
            0
        } else {
            self.values.len() / self.width
        }
    }

    /// The entry in row `r` and column `c`.
    pub open spec fn entry(self, r: int, c: int) -> T {
        self.values[r * self.width + c]
    }

    /// Row `r`.
    pub open spec fn row_spec(self, r: int) -> Seq<T> {
        self.values.subrange(r * self.width, r * self.width + self.width)
    }
}

impl<T> View for RowMajorMatrix<T> {
    type V = MatrixView<T>;

    open spec fn view(&self) -> MatrixView<T> {
        MatrixView { values: self.values@, width: self.width as nat }
    }
}

/// A matrix of `width` columns whose entries stand row after row in `values`.
#[derive(Clone, PartialEq, Eq, Debug)]
pub struct RowMajorMatrix<T> {
    pub values: Vec<T>,
    pub width: usize,
}

impl<T: Copy> RowMajorMatrix<T> {
    /// The entries fill whole rows; a matrix without columns has no entries.
    pub open spec fn wf(self) -> bool {
        if self.width == 0 {
            self.values@.len() == 0
        } else {
            self.values@.len() % (self.width as nat) == 0
        }
    }

    pub open spec fn height_spec(self) -> nat {
        if self.width == 0 {
            0
        } else {
            self.values@.len() / (self.width as nat)
        }
    }

    /// The entry in row `r` and column `c`.
    pub open spec fn entry(self, r: int, c: int) -> T {
        self.values@[r * self.width + c]
    }

    /// Row `r`.
    pub open spec fn row_spec(self, r: int) -> Seq<T> {
        self.values@.subrange(r * self.width, r * self.width + self.width)
    }

    /// The rows, first to last.
    pub open spec fn rows_spec(self) -> Seq<Seq<T>> {
        Seq::new(self.height_spec(), |r: int| self.row_spec(r))
    }

    /// An index into a row of a well-formed matrix is an index into its entries.
    pub proof fn lemma_entry_in_bounds(self, r: int, c: int)
        requires
            self.wf(),
            0 <= r < self.height_spec(),
            0 <= c < self.width,
        ensures
            0 <= r * self.width,
            0 <= r * self.width + c < self.values@.len(),
            r * self.width + self.width <= self.values@.len(),
            self.row_spec(r).len() == self.width,
            self.row_spec(r)[c] == self.entry(r, c),
    {
        let w = self.width as int;
        let n = self.values@.len() as int;
        let h = self.height_spec() as int;
        vstd::arithmetic::div_mod::lemma_fundamental_div_mod(n, w);
        assert(n == w * h);
        assert(r * w + w <= w * h) by (nonlinear_arith)
            requires
                0 <= r < h,
                0 < w,
        ;
        assert(0 <= r * w) by (nonlinear_arith)
            requires
                0 <= r,
                0 < w,
        ;
    }

    /// The matrix of the given entries and width.
    pub fn new(values: Vec<T>, width: usize) -> (r: Self)
        requires
            (RowMajorMatrix { values, width }).wf(),
        ensures
            r == (RowMajorMatrix { values, width }),
            r.wf(),
    {
        RowMajorMatrix { values, width }
    }

    /// The matrix of one column.
    pub fn new_col(values: Vec<T>) -> (r: Self)
        ensures
            r == (RowMajorMatrix { values, width: 1 }),
            r.wf(),
            r.height_spec() == values@.len(),
    {
        RowMajorMatrix { values, width: 1 }
    }

    pub fn width(&self) -> (r: usize)
        ensures
            r == self.width,
    {
        self.width
    }

    pub fn height(&self) -> (r: usize)
        ensures
            r == self.height_spec(),
    {
        if self.width == 0 {
            0
        } else {
            self.values.len() / self.width
        }
    }

    pub fn dimensions(&self) -> (r: Dimensions)
        ensures
            r.width == self.width,
            r.height == self.height_spec(),
    {
        Dimensions { width: self.width, height: self.height() }
    }

    pub fn get(&self, r: usize, c: usize) -> (x: T)
        requires
            self.wf(),
            r < self.height_spec(),
            c < self.width,
        ensures
            x == self.entry(r as int, c as int),
    {
        let n = self.values.len();
        proof {
            self.lemma_entry_in_bounds(r as int, c as int);
        }
        self.values[r * self.width + c]
    }

    /// A copy of row `r`.
    pub fn row(&self, r: usize) -> (x: Vec<T>)
        requires
            self.wf(),
            r < self.height_spec(),
        ensures
            x@ == self.row_spec(r as int),
            x@.len() == self.width,
    {
        let mut out: Vec<T> = Vec::new();
        let mut c: usize = 0;
        let n = self.values.len();
        while c < self.width
            invariant
                self.wf(),
                n == self.values@.len(),
                r < self.height_spec(),
                c <= self.width,
                out@.len() == c,
                forall|k: int| 0 <= k < c ==> out@[k] == self.entry(r as int, k),
            decreases self.width - c,
        {
            proof {
                self.lemma_entry_in_bounds(r as int, c as int);
            }
            out.push(self.values[r * self.width + c]);
            c += 1;
        }
        proof {
            assert(self.width > 0);
            self.lemma_entry_in_bounds(r as int, 0);
            assert forall|k: int| 0 <= k < self.width implies out@[k] == self.row_spec(r as int)[k] by {
                self.lemma_entry_in_bounds(r as int, k);
            }
            assert(out@ =~= self.row_spec(r as int));
        }
        out
    }
}

/// The matrix whose rows are the given vectors.
pub fn from_rows<T: Copy>(rows: &Vec<Vec<T>>, width: usize) -> (m: RowMajorMatrix<T>)
    requires
        width > 0,
        rows@.len() * width <= usize::MAX,
        forall|i: int| 0 <= i < rows@.len() ==> (#[trigger] rows@[i])@.len() == width,
    ensures
        m.width == width,
        m.wf(),
        m.height_spec() == rows@.len(),
        m.values@.len() == rows@.len() * width,
        forall|i: int, c: int|
            0 <= i < rows@.len() && 0 <= c < width ==> #[trigger] m.entry(i, c) == rows@[i]@[c],
{
    let mut values: Vec<T> = Vec::new();
    let mut r: usize = 0;
    while r < rows.len()
        invariant
            width > 0,
            rows@.len() * width <= usize::MAX,
            forall|i: int| 0 <= i < rows@.len() ==> (#[trigger] rows@[i])@.len() == width,
            r <= rows@.len(),
            values@.len() == r * width,
            forall|i: int, c: int|
                0 <= i < r && 0 <= c < width ==> #[trigger] values@[i * width + c] == rows@[i]@[c],
        decreases rows@.len() - r,
    {
        let row = &rows[r];
        let ghost before = values@;
        let mut c: usize = 0;
        while c < width
            invariant
                c <= width,
                row@.len() == width,
                values@.len() == r * width + c,
                values@.take(r * width) == before,
                before.len() == r * width,
                r < rows@.len(),
                rows@.len() * width <= usize::MAX,
                forall|k: int| 0 <= k < c ==> values@[r * width + k] == row@[k],
            decreases width - c,
        {
            proof {
                assert((r + 1) * width <= rows@.len() * width) by (nonlinear_arith)
                    requires
                        r < rows@.len(),
                        width > 0,
                ;
                assert((r + 1) * width == r * width + width) by (nonlinear_arith);
            }
            values.push(row[c]);
            assert(values@.take(r * width) =~= before);
            c += 1;
        }
        proof {
            assert forall|i: int, k: int| 0 <= i < r + 1 && 0 <= k < width implies #[trigger] values@[i
                * width + k] == rows@[i]@[k] by {
                if i < r {
                    assert(i * width + k < r * width) by (nonlinear_arith)
                        requires
                            0 <= i < r,
                            0 <= k < width,
                    ;
                    assert(values@[i * width + k] == values@.take(r * width)[i * width + k]);
                }
            }
            assert((r + 1) * width == r * width + width) by (nonlinear_arith);
        }
        r += 1;
    }
    proof {
        let h = rows@.len() as int;
        let w = width as int;
        assert(h * w == w * h) by (nonlinear_arith);
        vstd::arithmetic::div_mod::lemma_fundamental_div_mod_converse(h * w, w, h, 0);
    }
    RowMajorMatrix { values, width }
}

/// The sum over `i` below `n` of `weights[i]` times the entry of `column`
/// in row `i`, taken from the first row on.
pub open spec fn weighted_sum_spec<R: Ring>(weights: Seq<R>, column: Seq<R>, n: nat) -> R
    decreases n,
{
    if n == 0 {
        R::zero_spec()
    } else {
        weighted_sum_spec(weights, column, (n - 1) as nat).plus_spec(
            weights[n - 1].times_spec(column[n - 1]),
        )
    }
}

/// Column `c` of a matrix, top to bottom.
pub open spec fn column_spec<T>(m: MatrixView<T>, c: int) -> Seq<T> {
    Seq::new(m.height_spec(), |r: int| m.entry(r, c))
}

/// For each column, the sum of its entries weighted row by row.
pub fn columnwise_dot_product<R: Ring>(m: &RowMajorMatrix<R>, weights: &Vec<R>) -> (out: Vec<R>)
    requires
        m.wf(),
        weights@.len() == m.height_spec(),
    ensures
        out@.len() == m.width,
        forall|c: int|
            0 <= c < m.width ==> #[trigger] out@[c] == weighted_sum_spec(
                weights@,
                column_spec(m@, c),
                m.height_spec(),
            ),
{
    let h = m.height();
    let mut out: Vec<R> = Vec::new();
    let mut c: usize = 0;
    while c < m.width
        invariant
            m.wf(),
            h == m.height_spec(),
            weights@.len() == h,
            c <= m.width,
            out@.len() == c,
            forall|k: int|
                0 <= k < c ==> #[trigger] out@[k] == weighted_sum_spec(
                    weights@,
                    column_spec(m@, k),
                    m.height_spec(),
                ),
        decreases m.width - c,
    {
        let mut acc = R::zero();
        let mut r: usize = 0;
        while r < h
            invariant
                m.wf(),
                h == m.height_spec(),
                weights@.len() == h,
                c < m.width,
                r <= h,
                acc == weighted_sum_spec(weights@, column_spec(m@, c as int), r as nat),
            decreases h - r,
        {
            let x = m.get(r, c);
            acc = acc.plus(weights[r].times(x));
            r += 1;
        }
        out.push(acc);
        c += 1;
    }
    out
}

} // verus!
