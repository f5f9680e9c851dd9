//! Batch commitments to matrices over the Mersenne-31 field: a Merkle tree
//! over Keccak-256, with one root.

use vstd::prelude::*;
use crate::field::Ring;
use crate::matrix::{Dimensions, RowMajorMatrix};
use crate::mersenne31::M31;
use crate::util::{is_pow2_of, is_power_of_two, log2_spec};
use p3_commit::Mmcs;
use p3_field::PrimeField32;
use p3_keccak::Keccak256Hash;
use p3_symmetric::{CompressionFunctionFromHasher, SerializingHasher};

verus! {

/// The field element of the outside crates, which the tree holds.
#[verifier::external_type_specification]
#[verifier::external_body]
pub struct ExOutsideMersenne31(p3_mersenne_31::Mersenne31);

/// The dense matrix of the outside crates, which the tree holds.
#[verifier::external_type_specification]
#[verifier::external_body]
#[verifier::reject_recursive_types(T)]
#[verifier::reject_recursive_types(V)]
pub struct ExDenseMatrix<T, V>(p3_matrix::dense::DenseMatrix<T, V>);

/// The Merkle tree of the outside scheme: what the prover keeps of a
/// commitment.
#[verifier::external_type_specification]
#[verifier::external_body]
#[verifier::reject_recursive_types(F)]
#[verifier::reject_recursive_types(W)]
#[verifier::reject_recursive_types(M)]
pub struct ExMerkleTree<F, W, M, const N: usize, const DIGEST_ELEMS: usize>(
    p3_merkle_tree::MerkleTree<F, W, M, N, DIGEST_ELEMS>,
);

/// The reason that the outside scheme gives for turning an opening down.
#[verifier::external_type_specification]
#[verifier::external_body]
pub struct ExMerkleTreeError(p3_merkle_tree::MerkleTreeError);

/// The tree that the outside scheme builds over matrices of field elements.
pub type Tree = p3_merkle_tree::MerkleTree<
    p3_mersenne_31::Mersenne31,
    u8,
    p3_matrix::dense::DenseMatrix<p3_mersenne_31::Mersenne31, Vec<p3_mersenne_31::Mersenne31>>,
    2,
    32,
>;

/// The outside scheme: Keccak-256 over the serialised rows, binary
/// compression by the same hash, one root.
pub type TreeMmcs = p3_merkle_tree::MerkleTreeMmcs<
    p3_mersenne_31::Mersenne31,
    u8,
    SerializingHasher<Keccak256Hash>,
    CompressionFunctionFromHasher<Keccak256Hash, 2, 32>,
    2,
    32,
>;

/// A matrix as plain values: its entries reduced, row after row, and its width.
pub type Leaf = (Seq<u32>, nat);

/// The reduced values of a sequence of field elements.
pub open spec fn values_of(s: Seq<M31>) -> Seq<u32> {
    Seq::new(s.len(), |i: int| (s[i].value % crate::mersenne31::P) as u32)
}

/// The field elements with the given values.
pub open spec fn elements_of(s: Seq<u32>) -> Seq<M31> {
    Seq::new(s.len(), |i: int| M31 { value: s[i] })
}

/// A matrix as a leaf.
pub open spec fn leaf_of(m: RowMajorMatrix<M31>) -> Leaf {
    (values_of(m.values@), m.width as nat)
}

/// The matrices as leaves, in order.
pub open spec fn leaves_of(mats: Seq<RowMajorMatrix<M31>>) -> Seq<Leaf> {
    Seq::new(mats.len(), |i: int| leaf_of(mats[i]))
}

/// The number of rows of a leaf.
pub open spec fn leaf_height(l: Leaf) -> nat {
    if l.1 == 0 {
        0
    } else {
        l.0.len() / l.1
    }
}

/// Row `r` of a leaf.
pub open spec fn leaf_row(l: Leaf, r: nat) -> Seq<u32> {
    l.0.subrange((r * l.1) as int, (r * l.1 + l.1) as int)
}

/// The largest height among the first `n` leaves.
pub open spec fn max_height_spec(leaves: Seq<Leaf>, n: nat) -> nat
    decreases n,
{
    if n == 0 {
        0
    } else {
        let rest = max_height_spec(leaves, (n - 1) as nat);
        let h = leaf_height(leaves[n - 1]);
        if h > rest {
            h
        } else {
            rest
        }
    }
}

/// There is a leaf, and every leaf has whole rows, a power of two of them.
pub open spec fn leaves_wf(leaves: Seq<Leaf>) -> bool {
    &&& leaves.len() > 0
    &&& forall|i: int|
        0 <= i < leaves.len() ==> {
            &&& (#[trigger] leaves[i]).1 > 0
            &&& leaves[i].0.len() % leaves[i].1 == 0
            &&& is_power_of_two(leaf_height(leaves[i]))
        }
}

/// The row of leaf `k` that opening `index` shows: `index` less the low
/// digits by which the leaf is shorter than the tallest.
pub open spec fn opened_row_index(leaves: Seq<Leaf>, k: int, index: nat) -> nat {
    let shift = (log2_spec(max_height_spec(leaves, leaves.len())) - log2_spec(
        leaf_height(leaves[k]),
    )) as nat;
    index / vstd::arithmetic::power2::pow2(shift)
}

/// The leaves that a tree was built over: the entries of its matrices in
/// reduced form, and their widths.
pub uninterp spec fn tree_leaves(t: Tree) -> Seq<Leaf>;

/// The root that `Mmcs::commit` returns for the given leaves.
pub uninterp spec fn merkle_root(leaves: Seq<Leaf>) -> Seq<u8>;

/// The sibling digests that `Mmcs::open_batch` returns for the given leaves
/// and index.
pub uninterp spec fn merkle_path(leaves: Seq<Leaf>, index: nat) -> Seq<Seq<u8>>;

/// Whether `Mmcs::verify_batch` accepts.
pub uninterp spec fn merkle_accepts(
    root: Seq<u8>,
    dimensions: Seq<(nat, nat)>,
    index: nat,
    opened: Seq<Seq<u32>>,
    path: Seq<Seq<u8>>,
) -> bool;

/// The digests as plain sequences.
pub open spec fn path_of(p: Seq<[u8; 32]>) -> Seq<Seq<u8>> {
    Seq::new(p.len(), |i: int| p[i]@)
}

/// The dimensions as pairs of width and height.
pub open spec fn dims_of(d: Seq<Dimensions>) -> Seq<(nat, nat)> {
    Seq::new(d.len(), |i: int| (d[i].width as nat, d[i].height as nat))
}

/// The rows as sequences of reduced values.
pub open spec fn rows_of(rows: Seq<Vec<M31>>) -> Seq<Seq<u32>> {
    Seq::new(rows.len(), |i: int| values_of(rows[i]@))
}

/// Calls `p3_commit::Mmcs::commit` on `p3_merkle_tree::MerkleTreeMmcs`, which
/// panics on an empty batch and on heights that do not halve into one
/// another.
///
/// Claims that the tree holds the given matrices, and that the root depends
/// on them alone.
#[verifier::external_body]
pub(crate) fn merkle_commit(mats: &Vec<RowMajorMatrix<M31>>) -> (r: ([u8; 32], Tree))
    requires
        leaves_wf(leaves_of(mats@)),
    ensures
        tree_leaves(r.1) == leaves_of(mats@),
        r.0@ == merkle_root(leaves_of(mats@)),
{
    let hash = SerializingHasher::new(Keccak256Hash {});
    let mmcs = TreeMmcs::new(hash, CompressionFunctionFromHasher::new(Keccak256Hash {}), 0);
    let inputs = mats.iter().map(
        |m| p3_matrix::dense::DenseMatrix::new(
            m.values.iter().map(|x| p3_mersenne_31::Mersenne31::new(x.value)).collect(),
            m.width,
        ),
    ).collect();
    let (cap, tree) = mmcs.commit(inputs);
    (cap.roots()[0], tree)
}

/// The largest height is the height of a leaf, and no leaf is taller.
pub proof fn lemma_max_height(leaves: Seq<Leaf>, n: nat)
    requires
        0 < n <= leaves.len(),
    ensures
        exists|j: int| 0 <= j < n && max_height_spec(leaves, n) == leaf_height(#[trigger] leaves[j]),
        forall|k: int| 0 <= k < n ==> leaf_height(#[trigger] leaves[k]) <= max_height_spec(leaves, n),
    decreases n,
{
    reveal_with_fuel(max_height_spec, 2);
    if n > 1 {
        lemma_max_height(leaves, (n - 1) as nat);
        let j = choose|j: int|
            0 <= j < n - 1 && max_height_spec(leaves, (n - 1) as nat) == leaf_height(
                #[trigger] leaves[j],
            );
        if leaf_height(leaves[n - 1]) > max_height_spec(leaves, (n - 1) as nat) {
            assert(max_height_spec(leaves, n) == leaf_height(leaves[n - 1]));
        } else {
            assert(max_height_spec(leaves, n) == leaf_height(leaves[j]));
        }
    } else {
        assert(max_height_spec(leaves, n) == leaf_height(leaves[0]));
    }
}

/// An opening shows a whole row of every leaf.
pub proof fn lemma_opened_row_whole(leaves: Seq<Leaf>, k: int, index: nat)
    requires
        leaves_wf(leaves),
        0 <= k < leaves.len(),
        index < max_height_spec(leaves, leaves.len()),
    ensures
        opened_row_index(leaves, k, index) < leaf_height(leaves[k]),
        leaf_row(leaves[k], opened_row_index(leaves, k, index)).len() == leaves[k].1,
{
    lemma_max_height(leaves, leaves.len());
    let tallest = max_height_spec(leaves, leaves.len());
    let h = leaf_height(leaves[k]);
    let a = log2_spec(tallest);
    let b = log2_spec(h);
    let j = choose|j: int| 0 <= j < leaves.len() && tallest == leaf_height(#[trigger] leaves[j]);
    assert(is_power_of_two(leaf_height(leaves[j])));
    assert(is_power_of_two(h));
    assert(is_pow2_of(tallest, a));
    assert(is_pow2_of(h, b));
    if a < b {
        vstd::arithmetic::power2::lemma_pow2_strictly_increases(a, b);
    }
    let shift = (a - b) as nat;
    vstd::arithmetic::power2::lemma_pow2_adds(shift, b);
    vstd::arithmetic::power2::lemma_pow2_pos(shift);
    let d = vstd::arithmetic::power2::pow2(shift) as int;
    let x = index as int;
    let row = x / d;
    vstd::arithmetic::div_mod::lemma_fundamental_div_mod(x, d);
    assert(0 <= row < h) by (nonlinear_arith)
        requires
            x < d * h,
            x == d * row + x % d,
            0 <= x % d,
            0 <= x,
            d > 0,
    ;
    let w = leaves[k].1 as int;
    let len = leaves[k].0.len() as int;
    vstd::arithmetic::div_mod::lemma_fundamental_div_mod(len, w);
    assert(0 <= row * w && row * w + w <= len) by (nonlinear_arith)
        requires
            0 <= row < h,
            len == w * h,
            w > 0,
    ;
}

/// The widths and heights of the leaves.
pub open spec fn leaf_dims(leaves: Seq<Leaf>) -> Seq<(nat, nat)> {
    Seq::new(leaves.len(), |k: int| (leaves[k].1, leaf_height(leaves[k])))
}

/// The rows that opening `index` shows, leaf by leaf, in reduced form.
pub open spec fn opened_rows(leaves: Seq<Leaf>, index: nat) -> Seq<Seq<u32>> {
    Seq::new(
        leaves.len(),
        |k: int| values_of(elements_of(leaf_row(leaves[k], opened_row_index(leaves, k, index)))),
    )
}

/// Calls `p3_commit::Mmcs::open_batch` on `p3_merkle_tree::MerkleTreeMmcs`,
/// which panics on an index that is not below the largest height.
///
/// Claims that it returns of each matrix the row that the index shifted
/// down to its height names, in reduced form, and the sibling digests, which
/// depend on the leaves and the index alone; and that the digests are
/// those from which `verify_batch` arrives at the root of the tree, so
/// that it accepts the rows with them under the dimensions of the leaves.
#[verifier::external_body]
pub(crate) fn merkle_open(index: usize, tree: &Tree) -> (r: (Vec<Vec<M31>>, Vec<[u8; 32]>))
    requires
        leaves_wf(tree_leaves(*tree)),
        index < max_height_spec(tree_leaves(*tree), tree_leaves(*tree).len()),
    ensures
        r.0@.len() == tree_leaves(*tree).len(),
        forall|k: int|
            0 <= k < r.0@.len() ==> (#[trigger] r.0@[k])@ == elements_of(
                leaf_row(
                    tree_leaves(*tree)[k],
                    opened_row_index(tree_leaves(*tree), k, index as nat),
                ),
            ),
        path_of(r.1@) == merkle_path(tree_leaves(*tree), index as nat),
        merkle_accepts(
            merkle_root(tree_leaves(*tree)),
            leaf_dims(tree_leaves(*tree)),
            index as nat,
            rows_of(r.0@),
            path_of(r.1@),
        ),
{
    let hash = SerializingHasher::new(Keccak256Hash {});
    let mmcs = TreeMmcs::new(hash, CompressionFunctionFromHasher::new(Keccak256Hash {}), 0);
    let (rows, path) = mmcs.open_batch(index, tree).unpack();
    let rows = rows.iter().map(
        |row| row.iter().map(|x| M31 { value: x.as_canonical_u32() }).collect(),
    ).collect();
    (rows, path)
}

/// No claimed height is above half of what the machine can count, so that
/// each can be rounded up to a power of two.
pub open spec fn heights_fit(d: Seq<Dimensions>) -> bool {
    forall|i: int| 0 <= i < d.len() ==> (#[trigger] d[i]).height <= usize::MAX / 2
}

/// Whether every claimed height can be rounded up to a power of two.
pub fn check_heights_fit(dimensions: &Vec<Dimensions>) -> (r: bool)
    ensures
        r == heights_fit(dimensions@),
{
    let mut i: usize = 0;
    while i < dimensions.len()
        invariant
            i <= dimensions@.len(),
            forall|k: int| 0 <= k < i ==> (#[trigger] dimensions@[k]).height <= usize::MAX / 2,
        decreases dimensions@.len() - i,
    {
        if dimensions[i].height > usize::MAX / 2 {
            return false;
        }
        i += 1;
    }
    true
}

/// Calls `p3_commit::Mmcs::verify_batch` on `p3_merkle_tree::MerkleTreeMmcs`.
///
/// Claims only that whether it accepts depends on the arguments alone.
/// Heights that its arithmetic cannot round up are left out.
#[verifier::external_body]
pub(crate) fn merkle_verify(
    root: &[u8; 32],
    dimensions: &Vec<Dimensions>,
    index: usize,
    opened: &Vec<Vec<M31>>,
    path: &Vec<[u8; 32]>,
) -> (r: Result<(), p3_merkle_tree::MerkleTreeError>)
    requires
        heights_fit(dimensions@),
    ensures
        r is Ok <==> merkle_accepts(
            root@,
            dims_of(dimensions@),
            index as nat,
            rows_of(opened@),
            path_of(path@),
        ),
{
    let hash = SerializingHasher::new(Keccak256Hash {});
    let mmcs = TreeMmcs::new(hash, CompressionFunctionFromHasher::new(Keccak256Hash {}), 0);
    let dims: Vec<p3_matrix::Dimensions> = dimensions.iter().map(
        |d| p3_matrix::Dimensions { width: d.width, height: d.height },
    ).collect();
    let rows: Vec<Vec<p3_mersenne_31::Mersenne31>> = opened.iter().map(
        |row| row.iter().map(|x| p3_mersenne_31::Mersenne31::new(x.value)).collect(),
    ).collect();
    let cap = p3_symmetric::MerkleCap::new(vec![*root]);
    mmcs.verify_batch(&cap, &dims, index, p3_commit::BatchOpeningRef::new(&rows, path))
}

/// Calls `p3_commit::Mmcs::get_matrices` on `p3_merkle_tree::MerkleTreeMmcs`.
///
/// Claims that it returns the matrices that the tree was built over, in
/// reduced form.
#[verifier::external_body]
pub(crate) fn merkle_matrices(tree: &Tree) -> (r: Vec<RowMajorMatrix<M31>>)
    ensures
        r@.len() == tree_leaves(*tree).len(),
        forall|k: int|
            0 <= k < r@.len() ==> {
                &&& (#[trigger] r@[k]).values@ == elements_of(tree_leaves(*tree)[k].0)
                &&& r@[k].width == tree_leaves(*tree)[k].1
            },
{
    let hash = SerializingHasher::new(Keccak256Hash {});
    let mmcs = TreeMmcs::new(hash, CompressionFunctionFromHasher::new(Keccak256Hash {}), 0);
    mmcs.get_matrices(tree).iter().map(
        |m| RowMajorMatrix {
            values: m.values.iter().map(|x| M31 { value: x.as_canonical_u32() }).collect(),
            width: m.width,
        },
    ).collect()
}

} // verus!
