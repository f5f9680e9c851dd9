//! Batch commitments to matrices over the cubic extension: each entry is
//! laid out as its three coefficients, and a scheme over the base field
//! does the rest.

use vstd::prelude::*;
use crate::extension::Ext3;
use crate::field::Ring;
use crate::matrix::{Dimensions, RowMajorMatrix};
use crate::mersenne31::M31;
use crate::mmcs::{check_heights_fit, dims_of, heights_fit, leaf_dims, lemma_opened_row_whole, opened_rows, leaf_height, leaf_row, leaves_of, leaves_wf, max_height_spec, merkle_accepts, merkle_commit, merkle_matrices, merkle_open, merkle_path, merkle_root, merkle_verify, opened_row_index, path_of, rows_of, tree_leaves, values_of, elements_of, Leaf, Tree};
use crate::util::is_power_of_two;

verus! {

/// The number of base field coefficients of an extension element.
pub const EXTENSION_DEGREE: usize = 3;

/// Why a commitment scheme turned an opening down.
#[derive(Clone, Copy, PartialEq, Eq, Structural, Debug)]
pub enum MmcsError {
    /// The dimensions cannot be those of matrices of extension elements.
    MalformedInput,
    /// The opened rows and the proof do not lead to the commitment.
    OpeningProofInvalid,
}

/// The binding value of a batch of matrices: the root of their tree.
#[derive(Clone, Copy, PartialEq, Eq, Debug)]
pub struct Commitment {
    pub root: [u8; 32],
}

/// The coefficients of the entries of `row`, entry after entry.
pub open spec fn flatten_spec(row: Seq<Ext3>) -> Seq<M31> {
    Seq::new(
        row.len() * 3,
        |i: int|
            if i % 3 == 0 {
                row[i / 3].c0
            } else if i % 3 == 1 {
                row[i / 3].c1
            } else {
                row[i / 3].c2
            },
    )
}

/// The extension elements whose coefficients stand three by three in `row`.
pub open spec fn unflatten_spec(row: Seq<M31>) -> Seq<Ext3> {
    Seq::new(
        row.len() / 3,
        |i: int| Ext3 { c0: row[3 * i], c1: row[3 * i + 1], c2: row[3 * i + 2] },
    )
}

/// Laying a row out and reading it back gives the row.
pub proof fn lemma_unflatten_flatten(row: Seq<Ext3>)
    ensures
        unflatten_spec(flatten_spec(row)) == row,
{
    assert(unflatten_spec(flatten_spec(row)) =~= row);
}

/// Reading a row of whole entries and laying it out again gives the row.
pub proof fn lemma_flatten_unflatten(row: Seq<M31>)
    requires
        row.len() % 3 == 0,
    ensures
        flatten_spec(unflatten_spec(row)) == row,
{
    let back = flatten_spec(unflatten_spec(row));
    assert(back.len() == row.len());
    assert forall|i: int| 0 <= i < row.len() implies back[i] == row[i] by {
        assert(3 * (i / 3) + i % 3 == i);
    }
    assert(back =~= row);
}

/// What the extension scheme hands on to the base scheme when it verifies
/// the rows that it has opened is what the base scheme has opened: the
/// rows of the base scheme, read as extension elements and laid out again
/// in reduced form, are the rows of the base scheme.
pub proof fn lemma_opened_rows_hand_on(base_row: Seq<u32>)
    requires
        base_row.len() % 3 == 0,
        forall|i: int| 0 <= i < base_row.len() ==> #[trigger] base_row[i] < crate::mersenne31::P,
    ensures
        values_of(flatten_spec(unflatten_spec(elements_of(base_row)))) == base_row,
{
    lemma_flatten_unflatten(elements_of(base_row));
    let back = values_of(elements_of(base_row));
    assert forall|i: int| 0 <= i < base_row.len() implies back[i] == base_row[i] by {
        vstd::arithmetic::div_mod::lemma_small_mod(
            base_row[i] as nat,
            crate::mersenne31::P as nat,
        );
    }
    assert(back =~= base_row);
}

/// Lays the entries of `row` out as their coefficients.
pub fn flatten(row: &Vec<Ext3>) -> (r: Vec<M31>)
    requires
        row@.len() * 3 <= usize::MAX,
    ensures
        r@ == flatten_spec(row@),
{
    let mut out: Vec<M31> = Vec::new();
    let mut i: usize = 0;
    while i < row.len()
        invariant
            i <= row@.len(),
            out@.len() == 3 * i,
            forall|k: int| 0 <= k < 3 * i ==> out@[k] == flatten_spec(row@)[k],
        decreases row@.len() - i,
    {
        let e = row[i];
        out.push(e.c0);
        out.push(e.c1);
        out.push(e.c2);
        i += 1;
    }
    proof {
        assert(out@ =~= flatten_spec(row@));
    }
    out
}

/// Reads extension elements from coefficients standing three by three.
pub fn unflatten(row: &Vec<M31>) -> (r: Vec<Ext3>)
    ensures
        r@ == unflatten_spec(row@),
{
    let n = row.len() / 3;
    let mut out: Vec<Ext3> = Vec::new();
    let mut i: usize = 0;
    while i < n
        invariant
            n == row@.len() / 3,
            3 * n <= row@.len(),
            row@.len() <= usize::MAX,
            i <= n,
            out@.len() == i,
            forall|k: int| 0 <= k < i ==> out@[k] == unflatten_spec(row@)[k],
        decreases n - i,
    {
        out.push(Ext3 { c0: row[3 * i], c1: row[3 * i + 1], c2: row[3 * i + 2] });
        i += 1;
    }
    proof {
        assert(out@ =~= unflatten_spec(row@));
    }
    out
}

/// A matrix over the extension seen as a matrix over the base field, three
/// times as wide.
#[derive(Clone, PartialEq, Eq, Debug)]
pub struct FlatMatrix {
    pub inner: RowMajorMatrix<Ext3>,
}

impl FlatMatrix {
    /// The matrix under the view has whole rows and its coefficients can be counted.
    pub open spec fn wf(self) -> bool {
        &&& self.inner.wf()
        &&& self.inner.values@.len() * 3 <= usize::MAX
        &&& self.inner.width * 3 <= usize::MAX
    }

    pub fn new(inner: RowMajorMatrix<Ext3>) -> (r: Self)
        ensures
            r.inner == inner,
    {
        FlatMatrix { inner }
    }

    pub open spec fn width_spec(self) -> nat {
        self.inner.width as nat * 3
    }

    pub fn width(&self) -> (r: usize)
        requires
            self.wf(),
        ensures
            r == self.width_spec(),
    {
        proof {
            lemma_flat_shape(self.inner);
        }
        self.inner.width * EXTENSION_DEGREE
    }

    pub fn height(&self) -> (r: usize)
        ensures
            r == self.inner.height_spec(),
    {
        self.inner.height()
    }

    /// Row `r`: the coefficients of the entries of row `r` underneath.
    pub fn row(&self, r: usize) -> (x: Vec<M31>)
        requires
            self.wf(),
            r < self.inner.height_spec(),
        ensures
            x@ == flatten_spec(self.inner.row_spec(r as int)),
    {
        let ext = self.inner.row(r);
        proof {
            lemma_flat_shape(self.inner);
        }
        flatten(&ext)
    }

    /// Row `r`, as `row` gives it.
    pub fn row_slice(&self, r: usize) -> (x: Vec<M31>)
        requires
            self.wf(),
            r < self.inner.height_spec(),
        ensures
            x@ == flatten_spec(self.inner.row_spec(r as int)),
    {
        self.row(r)
    }

    /// The view as a matrix of its own.
    pub fn to_row_major_matrix(&self) -> (m: RowMajorMatrix<M31>)
        requires
            self.wf(),
        ensures
            m.values@ == flatten_spec(self.inner.values@),
            m.width == self.width_spec(),
            m.wf(),
            m.height_spec() == self.inner.height_spec(),
    {
        flatten_matrix(&self.inner)
    }
}

/// The matrix over the base field with the coefficients of `m`.
pub fn flatten_matrix(m: &RowMajorMatrix<Ext3>) -> (r: RowMajorMatrix<M31>)
    requires
        m.wf(),
        m.values@.len() * 3 <= usize::MAX,
        m.width * 3 <= usize::MAX,
    ensures
        r.values@ == flatten_spec(m.values@),
        r.width == m.width * 3,
        r.wf(),
        r.height_spec() == m.height_spec(),
{
    proof {
        lemma_flat_shape(*m);
    }
    let values = flatten(&m.values);
    RowMajorMatrix { values, width: m.width * EXTENSION_DEGREE }
}

/// A matrix three times as wide has as many rows.
pub proof fn lemma_flat_shape(m: RowMajorMatrix<Ext3>)
    requires
        m.wf(),
        m.values@.len() * 3 <= usize::MAX,
        m.width * 3 <= usize::MAX,
    ensures
        m.width > 0 ==> (m.values@.len() * 3) % ((m.width * 3) as nat) == 0,
        m.width > 0 ==> (m.values@.len() * 3) / ((m.width * 3) as nat) == m.height_spec(),
        m.width == 0 ==> m.values@.len() * 3 == 0,
        forall|r: int| 0 <= r < m.height_spec() ==> #[trigger] m.row_spec(r).len() * 3 <= usize::MAX,
{
    let w = m.width as int;
    let n = m.values@.len() as int;
    if w > 0 {
        let h = n / w;
        vstd::arithmetic::div_mod::lemma_fundamental_div_mod(n, w);
        assert(n == w * h);
        assert(n * 3 == (w * 3) * h) by (nonlinear_arith)
            requires
                n == w * h,
        ;
        vstd::arithmetic::div_mod::lemma_fundamental_div_mod_converse(n * 3, w * 3, h, 0);
        assert(h >= 0) by (nonlinear_arith)
            requires
                n == w * h,
                n >= 0,
                w > 0,
        ;
        assert forall|r: int| 0 <= r < m.height_spec() implies #[trigger] m.row_spec(r).len() * 3
            <= usize::MAX by {
            m.lemma_entry_in_bounds(r, 0);
        }
    }
}

/// What the prover keeps of a batch committed over the base field.
pub struct BaseProverData {
    pub tree: Tree,
}

impl BaseProverData {
    /// The committed matrices as plain values.
    pub open spec fn leaves(self) -> Seq<Leaf> {
        tree_leaves(self.tree)
    }

    /// A batch was committed: there is a matrix, and each has a power of two
    /// of whole rows.
    pub open spec fn wf(self) -> bool {
        leaves_wf(self.leaves())
    }

    /// The height of the tallest matrix.
    pub open spec fn max_height(self) -> nat {
        max_height_spec(self.leaves(), self.leaves().len())
    }
}

/// The commitment scheme over the base field.
#[derive(Clone, Copy, PartialEq, Eq, Structural, Debug)]
pub struct BaseMmcs;

impl BaseMmcs {
    /// Commits to the matrices as one batch.
    pub fn commit(&self, inputs: Vec<RowMajorMatrix<M31>>) -> (r: (Commitment, BaseProverData))
        requires
            leaves_wf(leaves_of(inputs@)),
        ensures
            r.1.leaves() == leaves_of(inputs@),
            r.1.wf(),
            r.0.root@ == merkle_root(leaves_of(inputs@)),
    {
        let (root, tree) = merkle_commit(&inputs);
        (Commitment { root }, BaseProverData { tree })
    }

    /// Opens row `index` of the tallest matrices and the matching row of
    /// each shorter one, with the proof that covers them all, which the
    /// scheme accepts under the commitment to the batch.
    pub fn open_batch(&self, index: usize, prover_data: &BaseProverData) -> (r: (
        Vec<Vec<M31>>,
        Vec<[u8; 32]>,
    ))
        requires
            prover_data.wf(),
            index < prover_data.max_height(),
        ensures
            r.0@.len() == prover_data.leaves().len(),
            forall|k: int|
                0 <= k < r.0@.len() ==> (#[trigger] r.0@[k])@ == elements_of(
                    leaf_row(
                        prover_data.leaves()[k],
                        opened_row_index(prover_data.leaves(), k, index as nat),
                    ),
                ),
            path_of(r.1@) == merkle_path(prover_data.leaves(), index as nat),
            merkle_accepts(
                merkle_root(prover_data.leaves()),
                leaf_dims(prover_data.leaves()),
                index as nat,
                rows_of(r.0@),
                path_of(r.1@),
            ),
    {
        merkle_open(index, &prover_data.tree)
    }

    /// The committed matrices.
    pub fn get_matrices(&self, prover_data: &BaseProverData) -> (r: Vec<RowMajorMatrix<M31>>)
        ensures
            r@.len() == prover_data.leaves().len(),
            forall|k: int|
                0 <= k < r@.len() ==> {
                    &&& (#[trigger] r@[k]).values@ == elements_of(prover_data.leaves()[k].0)
                    &&& r@[k].width == prover_data.leaves()[k].1
                },
    {
        merkle_matrices(&prover_data.tree)
    }

    /// Checks opened rows and their proof against a commitment.
    pub fn verify_batch(
        &self,
        commit: &Commitment,
        dimensions: &Vec<Dimensions>,
        index: usize,
        opened_values: &Vec<Vec<M31>>,
        proof: &Vec<[u8; 32]>,
    ) -> (r: Result<(), MmcsError>)
        ensures
            r is Ok <==> heights_fit(dimensions@) && merkle_accepts(
                commit.root@,
                dims_of(dimensions@),
                index as nat,
                rows_of(opened_values@),
                path_of(proof@),
            ),
            r is Err ==> r == Err::<(), MmcsError>(MmcsError::OpeningProofInvalid),
    {
        if !check_heights_fit(dimensions) {
            return Err(MmcsError::OpeningProofInvalid);
        }
        match merkle_verify(&commit.root, dimensions, index, opened_values, proof) {
            Ok(()) => Ok(()),
            Err(_) => Err(MmcsError::OpeningProofInvalid),
        }
    }
}

/// A scheme that commits to batches of matrices over the base field and
/// opens rows of them.
pub trait Mmcs: Sized {
    /// What the prover keeps of a batch.
    type ProverData;

    /// The committed matrices as plain values.
    spec fn leaves(data: Self::ProverData) -> Seq<Leaf>;

    /// The binding value of a batch.
    spec fn root_spec(&self, leaves: Seq<Leaf>) -> Seq<u8>;

    /// The proof that goes with the rows opened at `index`.
    spec fn path_spec(&self, leaves: Seq<Leaf>, index: nat) -> Seq<Seq<u8>>;

    /// Whether rows and a proof are accepted under a binding value.
    spec fn accepts_spec(
        &self,
        root: Seq<u8>,
        dims: Seq<(nat, nat)>,
        index: nat,
        rows: Seq<Seq<u32>>,
        path: Seq<Seq<u8>>,
    ) -> bool;

    /// Commits to the matrices as one batch.
    fn commit(&self, inputs: Vec<RowMajorMatrix<M31>>) -> (r: (Commitment, Self::ProverData))
        requires
            leaves_wf(leaves_of(inputs@)),
        ensures
            Self::leaves(r.1) == leaves_of(inputs@),
            r.0.root@ == self.root_spec(leaves_of(inputs@)),
    ;

    /// Opens row `index` of the tallest matrices and the matching row of
    /// each shorter one, with the proof that covers them all, which the
    /// scheme accepts under the commitment to the batch.
    fn open_batch(&self, index: usize, prover_data: &Self::ProverData) -> (r: (
        Vec<Vec<M31>>,
        Vec<[u8; 32]>,
    ))
        requires
            leaves_wf(Self::leaves(*prover_data)),
            index < max_height_spec(Self::leaves(*prover_data), Self::leaves(*prover_data).len()),
        ensures
            r.0@.len() == Self::leaves(*prover_data).len(),
            forall|k: int|
                0 <= k < r.0@.len() ==> (#[trigger] r.0@[k])@ == elements_of(
                    leaf_row(
                        Self::leaves(*prover_data)[k],
                        opened_row_index(Self::leaves(*prover_data), k, index as nat),
                    ),
                ),
            path_of(r.1@) == self.path_spec(Self::leaves(*prover_data), index as nat),
            self.accepts_spec(
                self.root_spec(Self::leaves(*prover_data)),
                leaf_dims(Self::leaves(*prover_data)),
                index as nat,
                rows_of(r.0@),
                path_of(r.1@),
            ),
    ;

    /// The committed matrices.
    fn get_matrices(&self, prover_data: &Self::ProverData) -> (r: Vec<RowMajorMatrix<M31>>)
        ensures
            r@.len() == Self::leaves(*prover_data).len(),
            forall|k: int|
                0 <= k < r@.len() ==> {
                    &&& (#[trigger] r@[k]).values@ == elements_of(Self::leaves(*prover_data)[k].0)
                    &&& r@[k].width == Self::leaves(*prover_data)[k].1
                },
    ;

    /// Checks opened rows and their proof against a commitment.
    fn verify_batch(
        &self,
        commit: &Commitment,
        dimensions: &Vec<Dimensions>,
        index: usize,
        opened_values: &Vec<Vec<M31>>,
        proof: &Vec<[u8; 32]>,
    ) -> (r: Result<(), MmcsError>)
        ensures
            r is Ok <==> heights_fit(dimensions@) && self.accepts_spec(
                commit.root@,
                dims_of(dimensions@),
                index as nat,
                rows_of(opened_values@),
                path_of(proof@),
            ),
            r is Err ==> r == Err::<(), MmcsError>(MmcsError::OpeningProofInvalid),
    ;
}

impl Mmcs for BaseMmcs {
    type ProverData = BaseProverData;

    open spec fn leaves(data: BaseProverData) -> Seq<Leaf> {
        data.leaves()
    }

    open spec fn root_spec(&self, leaves: Seq<Leaf>) -> Seq<u8> {
        merkle_root(leaves)
    }

    open spec fn path_spec(&self, leaves: Seq<Leaf>, index: nat) -> Seq<Seq<u8>> {
        merkle_path(leaves, index)
    }

    open spec fn accepts_spec(
        &self,
        root: Seq<u8>,
        dims: Seq<(nat, nat)>,
        index: nat,
        rows: Seq<Seq<u32>>,
        path: Seq<Seq<u8>>,
    ) -> bool {
        merkle_accepts(root, dims, index, rows, path)
    }

    fn commit(&self, inputs: Vec<RowMajorMatrix<M31>>) -> (r: (Commitment, BaseProverData)) {
        BaseMmcs::commit(self, inputs)
    }

    fn open_batch(&self, index: usize, prover_data: &BaseProverData) -> (r: (
        Vec<Vec<M31>>,
        Vec<[u8; 32]>,
    )) {
        BaseMmcs::open_batch(self, index, prover_data)
    }

    fn get_matrices(&self, prover_data: &BaseProverData) -> (r: Vec<RowMajorMatrix<M31>>) {
        BaseMmcs::get_matrices(self, prover_data)
    }

    fn verify_batch(
        &self,
        commit: &Commitment,
        dimensions: &Vec<Dimensions>,
        index: usize,
        opened_values: &Vec<Vec<M31>>,
        proof: &Vec<[u8; 32]>,
    ) -> (r: Result<(), MmcsError>) {
        BaseMmcs::verify_batch(self, commit, dimensions, index, opened_values, proof)
    }
}

/// The matrices over the extension as the leaves that the base scheme sees.
pub open spec fn flat_leaves(inputs: Seq<RowMajorMatrix<Ext3>>) -> Seq<Leaf> {
    Seq::new(
        inputs.len(),
        |i: int| (values_of(flatten_spec(inputs[i].values@)), inputs[i].width as nat * 3),
    )
}

/// The matrices can be committed over the extension: there is one, and each
/// has a power of two of whole rows and coefficients that can be counted.
pub open spec fn ext_inputs_wf(inputs: Seq<RowMajorMatrix<Ext3>>) -> bool {
    &&& inputs.len() > 0
    &&& forall|i: int|
        0 <= i < inputs.len() ==> {
            &&& (#[trigger] inputs[i]).wf()
            &&& inputs[i].width > 0
            &&& inputs[i].width * 3 <= usize::MAX
            &&& inputs[i].values@.len() * 3 <= usize::MAX
            &&& is_power_of_two(inputs[i].height_spec())
        }
}

/// The rows over the extension laid out as rows over the base field.
pub open spec fn flat_rows(opened: Seq<Vec<Ext3>>) -> Seq<Seq<u32>> {
    Seq::new(opened.len(), |i: int| values_of(flatten_spec(opened[i]@)))
}

/// The dimensions with three times the width.
pub open spec fn flat_dims(d: Seq<Dimensions>) -> Seq<(nat, nat)> {
    Seq::new(d.len(), |i: int| (d[i].width as nat * 3, d[i].height as nat))
}

/// Whether the widths and the rows can be laid out within machine limits.
pub open spec fn flat_fits(d: Seq<Dimensions>, opened: Seq<Vec<Ext3>>) -> bool {
    &&& forall|i: int| 0 <= i < d.len() ==> (#[trigger] d[i]).width * 3 <= usize::MAX
    &&& forall|i: int| 0 <= i < opened.len() ==> (#[trigger] opened[i])@.len() * 3 <= usize::MAX
}

/// Every row of every leaf holds the coefficients of whole entries.
pub open spec fn whole_entries(leaves: Seq<Leaf>) -> bool {
    forall|k: int| 0 <= k < leaves.len() ==> (#[trigger] leaves[k]).1 % 3 == 0
}

/// What the adapter commits to has rows of whole entries, and the
/// dimensions of the matrices, three times as wide, are those of its leaves.
pub proof fn lemma_committed_shape(inputs: Seq<RowMajorMatrix<Ext3>>, dimensions: Seq<Dimensions>)
    requires
        ext_inputs_wf(inputs),
        dimensions.len() == inputs.len(),
        forall|k: int|
            0 <= k < inputs.len() ==> (#[trigger] dimensions[k]).width == inputs[k].width
                && dimensions[k].height == inputs[k].height_spec(),
    ensures
        whole_entries(flat_leaves(inputs)),
        flat_dims(dimensions) == leaf_dims(flat_leaves(inputs)),
{
    assert forall|k: int| 0 <= k < inputs.len() implies (#[trigger] flat_leaves(inputs)[k]).1 % 3
        == 0 && flat_dims(dimensions)[k] == leaf_dims(flat_leaves(inputs))[k] by {
        lemma_flat_shape(inputs[k]);
        assert(flat_leaves(inputs)[k].0.len() == inputs[k].values@.len() * 3);
    }
    assert(flat_dims(dimensions) =~= leaf_dims(flat_leaves(inputs)));
}

/// What the prover keeps of a batch committed over the extension: what
/// the base scheme keeps of the batch laid out.
pub struct ExtProverData<InnerMmcs: Mmcs> {
    pub base: InnerMmcs::ProverData,
}

impl<InnerMmcs: Mmcs> ExtProverData<InnerMmcs> {
    /// The committed matrices, laid out, as plain values.
    pub open spec fn leaves(self) -> Seq<Leaf> {
        InnerMmcs::leaves(self.base)
    }

    /// A batch was committed: there is a matrix, and each has a power of two
    /// of whole rows.
    pub open spec fn wf(self) -> bool {
        leaves_wf(self.leaves())
    }

    /// The height of the tallest matrix.
    pub open spec fn max_height(self) -> nat {
        max_height_spec(self.leaves(), self.leaves().len())
    }
}

/// A commitment scheme over the extension field made of one over the base
/// field: it lays every entry out as its coefficients and hands the rest on.
#[derive(Clone, Copy, Debug)]
pub struct ExtensionMmcs<InnerMmcs> {
    pub inner: InnerMmcs,
}

impl<InnerMmcs> ExtensionMmcs<InnerMmcs> {
    pub fn new(inner: InnerMmcs) -> (r: Self)
        ensures
            r.inner == inner,
    {
        ExtensionMmcs { inner }
    }
}

impl<InnerMmcs: Mmcs> ExtensionMmcs<InnerMmcs> {
    /// Commits to the matrices as one batch.
    pub fn commit(&self, inputs: Vec<RowMajorMatrix<Ext3>>) -> (r: (
        Commitment,
        ExtProverData<InnerMmcs>,
    ))
        requires
            ext_inputs_wf(inputs@),
        ensures
            r.1.leaves() == flat_leaves(inputs@),
            r.1.wf(),
            r.0.root@ == self.inner.root_spec(flat_leaves(inputs@)),
    {
        let mut flat: Vec<RowMajorMatrix<M31>> = Vec::new();
        let mut i: usize = 0;
        while i < inputs.len()
            invariant
                ext_inputs_wf(inputs@),
                i <= inputs@.len(),
                flat@.len() == i,
                forall|k: int|
                    0 <= k < i ==> {
                        &&& (#[trigger] flat@[k]).values@ == flatten_spec(inputs@[k].values@)
                        &&& flat@[k].width == inputs@[k].width * 3
                        &&& flat@[k].wf()
                        &&& flat@[k].height_spec() == inputs@[k].height_spec()
                    },
            decreases inputs@.len() - i,
        {
            flat.push(flatten_matrix(&inputs[i]));
            i += 1;
        }
        proof {
            assert(leaves_of(flat@) =~= flat_leaves(inputs@));
            assert forall|k: int| 0 <= k < flat@.len() implies {
                &&& (#[trigger] leaves_of(flat@)[k]).1 > 0
                &&& leaves_of(flat@)[k].0.len() % leaves_of(flat@)[k].1 == 0
                &&& is_power_of_two(leaf_height(leaves_of(flat@)[k]))
            } by {
                lemma_flat_shape(inputs@[k]);
            }
        }
        let (commit, base) = self.inner.commit(flat);
        (commit, ExtProverData { base })
    }

    /// Opens row `index` of the tallest matrices and the matching row of
    /// each shorter one, with the proof that covers them all, which the
    /// scheme accepts under the commitment to the batch.
    pub fn open_batch(&self, index: usize, prover_data: &ExtProverData<InnerMmcs>) -> (r: (
        Vec<Vec<Ext3>>,
        Vec<[u8; 32]>,
    ))
        requires
            prover_data.wf(),
            index < prover_data.max_height(),
        ensures
            r.0@.len() == prover_data.leaves().len(),
            forall|k: int|
                0 <= k < r.0@.len() ==> (#[trigger] r.0@[k])@ == unflatten_spec(
                    elements_of(
                        leaf_row(
                            prover_data.leaves()[k],
                            opened_row_index(prover_data.leaves(), k, index as nat),
                        ),
                    ),
                ),
            path_of(r.1@) == self.inner.path_spec(prover_data.leaves(), index as nat),
            self.inner.accepts_spec(
                self.inner.root_spec(prover_data.leaves()),
                leaf_dims(prover_data.leaves()),
                index as nat,
                opened_rows(prover_data.leaves(), index as nat),
                path_of(r.1@),
            ),
            whole_entries(prover_data.leaves()) ==> self.inner.accepts_spec(
                self.inner.root_spec(prover_data.leaves()),
                leaf_dims(prover_data.leaves()),
                index as nat,
                flat_rows(r.0@),
                path_of(r.1@),
            ),
    {
        let (base_rows, proof) = self.inner.open_batch(index, &prover_data.base);
        proof {
            assert(rows_of(base_rows@) =~= opened_rows(prover_data.leaves(), index as nat));
        }
        let mut rows: Vec<Vec<Ext3>> = Vec::new();
        let mut k: usize = 0;
        while k < base_rows.len()
            invariant
                k <= base_rows@.len(),
                rows@.len() == k,
                forall|j: int| 0 <= j < k ==> (#[trigger] rows@[j])@ == unflatten_spec(base_rows@[j]@),
            decreases base_rows@.len() - k,
        {
            rows.push(unflatten(&base_rows[k]));
            k += 1;
        }
        proof {
            if whole_entries(prover_data.leaves()) {
                assert forall|j: int| 0 <= j < rows@.len() implies flat_rows(rows@)[j] == rows_of(
                    base_rows@,
                )[j] by {
                    lemma_opened_row_whole(prover_data.leaves(), j, index as nat);
                    assert(prover_data.leaves()[j].1 % 3 == 0);
                    lemma_flatten_unflatten(base_rows@[j]@);
                }
                assert(flat_rows(rows@) =~= rows_of(base_rows@));
            }
        }
        (rows, proof)
    }

    /// The committed matrices.
    pub fn get_matrices(&self, prover_data: &ExtProverData<InnerMmcs>) -> (r: Vec<
        RowMajorMatrix<Ext3>,
    >)
        ensures
            r@.len() == prover_data.leaves().len(),
            forall|k: int|
                0 <= k < r@.len() ==> {
                    &&& (#[trigger] r@[k]).values@ == unflatten_spec(
                        elements_of(prover_data.leaves()[k].0),
                    )
                    &&& r@[k].width == prover_data.leaves()[k].1 / 3
                },
    {
        let base = self.inner.get_matrices(&prover_data.base);
        let mut out: Vec<RowMajorMatrix<Ext3>> = Vec::new();
        let mut k: usize = 0;
        while k < base.len()
            invariant
                k <= base@.len(),
                out@.len() == k,
                forall|j: int|
                    0 <= j < k ==> {
                        &&& (#[trigger] out@[j]).values@ == unflatten_spec(base@[j].values@)
                        &&& out@[j].width == base@[j].width / 3
                    },
            decreases base@.len() - k,
        {
            out.push(
                RowMajorMatrix {
                    values: unflatten(&base[k].values),
                    width: base[k].width / EXTENSION_DEGREE,
                },
            );
            k += 1;
        }
        out
    }

    /// Checks opened rows and their proof against a commitment.
    pub fn verify_batch(
        &self,
        commit: &Commitment,
        dimensions: &Vec<Dimensions>,
        index: usize,
        opened_values: &Vec<Vec<Ext3>>,
        proof: &Vec<[u8; 32]>,
    ) -> (r: Result<(), MmcsError>)
        ensures
            r is Ok <==> flat_fits(dimensions@, opened_values@) && heights_fit(dimensions@)
                && self.inner.accepts_spec(
                commit.root@,
                flat_dims(dimensions@),
                index as nat,
                flat_rows(opened_values@),
                path_of(proof@),
            ),
            r == Err::<(), MmcsError>(MmcsError::MalformedInput) <==> !flat_fits(
                dimensions@,
                opened_values@,
            ),
    {
        let mut base_dims: Vec<Dimensions> = Vec::new();
        let mut i: usize = 0;
        while i < dimensions.len()
            invariant
                i <= dimensions@.len(),
                base_dims@.len() == i,
                forall|k: int| 0 <= k < i ==> (#[trigger] dimensions@[k]).width * 3 <= usize::MAX,
                forall|k: int|
                    0 <= k < i ==> (#[trigger] base_dims@[k]) == (Dimensions {
                        width: (dimensions@[k].width * 3) as usize,
                        height: dimensions@[k].height,
                    }),
            decreases dimensions@.len() - i,
        {
            let d = dimensions[i];
            if d.width > usize::MAX / EXTENSION_DEGREE {
                return Err(MmcsError::MalformedInput);
            }
            base_dims.push(Dimensions { width: d.width * EXTENSION_DEGREE, height: d.height });
            i += 1;
        }
        let mut base_rows: Vec<Vec<M31>> = Vec::new();
        let mut j: usize = 0;
        while j < opened_values.len()
            invariant
                j <= opened_values@.len(),
                base_rows@.len() == j,
                forall|k: int| 0 <= k < j ==> (#[trigger] opened_values@[k])@.len() * 3 <= usize::MAX,
                forall|k: int|
                    0 <= k < j ==> (#[trigger] base_rows@[k])@ == flatten_spec(opened_values@[k]@),
            decreases opened_values@.len() - j,
        {
            if opened_values[j].len() > usize::MAX / EXTENSION_DEGREE {
                return Err(MmcsError::MalformedInput);
            }
            base_rows.push(flatten(&opened_values[j]));
            j += 1;
        }
        proof {
            assert(dims_of(base_dims@) =~= flat_dims(dimensions@));
            assert(rows_of(base_rows@) =~= flat_rows(opened_values@));
            assert(heights_fit(base_dims@) <==> heights_fit(dimensions@)) by {
                if heights_fit(base_dims@) {
                    assert forall|k: int| 0 <= k < dimensions@.len() implies (
                    #[trigger] dimensions@[k]).height <= usize::MAX / 2 by {
                        assert(base_dims@[k].height == dimensions@[k].height);
                    }
                }
                if heights_fit(dimensions@) {
                    assert forall|k: int| 0 <= k < base_dims@.len() implies (
                    #[trigger] base_dims@[k]).height <= usize::MAX / 2 by {
                        assert(base_dims@[k].height == dimensions@[k].height);
                    }
                }
            }
        }
        self.inner.verify_batch(commit, &base_dims, index, &base_rows, proof)
    }
}

} // verus!
