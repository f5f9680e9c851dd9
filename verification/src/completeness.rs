//! Why the verifier follows the prover: it draws the challenges that the
//! prover drew, and along every queried path its folds arrive at the
//! entries of the prover's layers.

use vstd::prelude::*;
use vstd::arithmetic::power2::{pow2, lemma_pow2_pos, lemma_pow2_unfold};
use crate::extension::{Ext3, M31Algebra};
use crate::extension_mmcs::{flatten_spec, Commitment};
use crate::field::{Field, Ring};
use crate::folding::{fold_pair_spec, fold_spec, univariate_twiddles_spec};
use crate::challenger::Transcript;
use crate::extension_mmcs::{BaseMmcs, ExtensionMmcs};
use crate::fri::{challenges_fit, openings_shape_ok, commit_run, constant_spec, draw_indices_spec, fold_row_spec, input_wf, last_some_spec, layer_dims, layer_leaves, layer_spec, lemma_commit_run_unfold, lemma_draw_indices_unfold, lemma_last_some, lemma_layer_len, lemma_layer_prefix, lemma_layer_unfold, lemma_query_start, lemma_query_step, lemma_replay_unfold, lemma_single_leaf_index, lemma_univariate_twiddles_len, next_layer_spec, opened_pair_spec, proof_shape_ok, prove_ok, prove_shape_ok, queries_spec, query_fits, query_row, query_shown, query_spec, replay, row_twiddle_spec, shows, step_accepts, step_answers, step_value, verify_end, verify_spec, CommitPhaseProofStep, FriConfig, FriError, FriProof, QueryProof};
use crate::pcs::{open_outcome, open_outcome_with, query_openings_match, PcsProof, ProverData};
use crate::mersenne31::{M31, P};
use crate::mmcs::{elements_of, leaf_row, merkle_accepts, merkle_path, merkle_root, path_of, values_of, Leaf};

verus! {

/// The sum and the difference of two elements do not tell an element from
/// its reduced form.
pub proof fn lemma_reduced_arguments(a: Ext3, b: Ext3)
    ensures
        a.canon().plus_spec(b) == a.plus_spec(b),
        a.plus_spec(b.canon()) == a.plus_spec(b),
        a.canon().minus_spec(b) == a.minus_spec(b),
        a.minus_spec(b.canon()) == a.minus_spec(b),
{
    reveal(crate::mersenne31::m31_plus);
    reveal(crate::mersenne31::m31_minus);
    vstd::arithmetic::div_mod::lemma_mod_twice(a.c0.value as int, P as int);
    vstd::arithmetic::div_mod::lemma_mod_twice(a.c1.value as int, P as int);
    vstd::arithmetic::div_mod::lemma_mod_twice(a.c2.value as int, P as int);
    vstd::arithmetic::div_mod::lemma_mod_twice(b.c0.value as int, P as int);
    vstd::arithmetic::div_mod::lemma_mod_twice(b.c1.value as int, P as int);
    vstd::arithmetic::div_mod::lemma_mod_twice(b.c2.value as int, P as int);
}

/// A fold does not tell its two values from their reduced forms.
pub proof fn lemma_fold_pair_reduced(lo: Ext3, hi: Ext3, beta: Ext3, t: M31)
    ensures
        fold_pair_spec(lo.canon(), hi, beta, t) == fold_pair_spec(lo, hi, beta, t),
        fold_pair_spec(lo, hi.canon(), beta, t) == fold_pair_spec(lo, hi, beta, t),
{
    lemma_reduced_arguments(lo, hi);
}

/// The coefficients of two elements, reduced, are those of their reduced forms.
pub proof fn lemma_row_values(a: Ext3, b: Ext3)
    ensures
        values_of(flatten_spec(seq![a, b])) == values_of(flatten_spec(seq![a.canon(), b])),
        values_of(flatten_spec(seq![a, b])) == values_of(flatten_spec(seq![a, b.canon()])),
{
    vstd::arithmetic::div_mod::lemma_mod_twice(a.c0.value as int, P as int);
    vstd::arithmetic::div_mod::lemma_mod_twice(a.c1.value as int, P as int);
    vstd::arithmetic::div_mod::lemma_mod_twice(a.c2.value as int, P as int);
    vstd::arithmetic::div_mod::lemma_mod_twice(b.c0.value as int, P as int);
    vstd::arithmetic::div_mod::lemma_mod_twice(b.c1.value as int, P as int);
    vstd::arithmetic::div_mod::lemma_mod_twice(b.c2.value as int, P as int);
    let x = values_of(flatten_spec(seq![a, b]));
    let y = values_of(flatten_spec(seq![a.canon(), b]));
    let z = values_of(flatten_spec(seq![a, b.canon()]));
    assert forall|k: int| 0 <= k < 6 implies x[k] == y[k] && x[k] == z[k] by {
        assert(k / 3 == 0 || k / 3 == 1);
    }
    assert(x =~= y);
    assert(x =~= z);
}

/// Row `pair` of the commitment to a layer holds entries `2 pair` and
/// `2 pair + 1` of the layer, and opening it shows their reduced forms.
pub proof fn lemma_layer_row(layer: Seq<Ext3>, pair: nat)
    requires
        2 * pair + 1 < layer.len(),
    ensures
        leaf_row(layer_leaves(layer)[0], pair) == values_of(
            flatten_spec(seq![layer[2 * (pair as int)], layer[2 * (pair as int) + 1]]),
        ),
        opened_pair_spec(layer_leaves(layer), pair) == seq![
            layer[2 * (pair as int)].canon(),
            layer[2 * (pair as int) + 1].canon(),
        ],
{
    let leaves = layer_leaves(layer);
    lemma_single_leaf_index(leaves, pair);
    let leaf = leaves[0];
    let row = leaf_row(leaf, pair);
    let flat = flatten_spec(layer);
    let a = layer[2 * (pair as int)];
    let b = layer[2 * (pair as int) + 1];
    let expected = values_of(flatten_spec(seq![a, b]));
    assert(row.len() == 6);
    assert forall|k: int| 0 <= k < 6 implies row[k] == expected[k] by {
        let g = 6 * pair + k;
        assert(row[k] == leaf.0[g]);
        assert(g / 3 == 2 * pair + k / 3 && g % 3 == k % 3) by {
            vstd::arithmetic::div_mod::lemma_fundamental_div_mod_converse(
                g as int,
                3,
                (2 * pair + k / 3) as int,
                k % 3,
            );
        }
        assert(k / 3 == 0 || k / 3 == 1);
    }
    assert(row =~= expected);
    let opened = opened_pair_spec(leaves, pair);
    assert(opened =~= seq![a.canon(), b.canon()]);
}

/// The commitment scheme accepts the opening that it gives of row `pair`
/// of the layer it has committed to.
pub open spec fn accepts_own_opening(
    commit: Commitment,
    leaves: Seq<Leaf>,
    log_folded_height: nat,
    pair: nat,
) -> bool {
    merkle_accepts(
        commit.root@,
        layer_dims(log_folded_height),
        pair,
        seq![leaf_row(leaves[0], pair)],
        merkle_path(leaves, pair),
    )
}

/// The values that the verifier holds for a query are the entries of the
/// tested vectors at the indices that the query comes through.
pub open spec fn honest_reduced(
    input: Seq<Option<Vec<Ext3>>>,
    reduced: Seq<Option<Ext3>>,
    index: nat,
    log_max_height: nat,
) -> bool {
    &&& reduced.len() == log_max_height + 1
    &&& forall|h: int|
        0 <= h <= log_max_height ==> #[trigger] reduced[h] == (match input[h] {
            Some(v) => Some(v@[(index / pow2((log_max_height - h) as nat)) as int]),
            None => None,
        })
}

/// An index without `i + 1` digits is the index without `i` digits, halved.
pub proof fn lemma_index_halved(index: nat, i: nat)
    ensures
        (index / pow2(i)) / 2 == index / pow2(i + 1),
{
    lemma_pow2_pos(i);
    lemma_pow2_unfold(i + 1);
    vstd::arithmetic::div_mod::lemma_div_denominator(index as int, pow2(i) as int, 2);
    assert(pow2(i) * 2 == pow2(i + 1)) by (nonlinear_arith)
        requires
            pow2(i + 1) == 2 * pow2(i),
    ;
}

/// An index below `2^m` is, without `i` digits, below `2^(m - i)`.
pub proof fn lemma_index_bound(index: nat, i: nat, m: nat)
    requires
        i <= m,
        index < pow2(m),
    ensures
        index / pow2(i) < pow2((m - i) as nat),
{
    lemma_pow2_pos(i);
    vstd::arithmetic::power2::lemma_pow2_adds(i, (m - i) as nat);
    let x = index as int;
    let d = pow2(i) as int;
    let q = x / d;
    let rem = x % d;
    let bound = pow2((m - i) as nat) as int;
    vstd::arithmetic::div_mod::lemma_fundamental_div_mod(x, d);
    assert(q < bound) by (nonlinear_arith)
        requires
            x < d * bound,
            x == d * q + rem,
            0 <= rem,
            d > 0,
    ;
}

/// The row that the verifier makes of the value it carries and of an
/// honest sibling: the two entries of the layer, one of them reduced.
pub proof fn lemma_honest_row(layer: Seq<Ext3>, sibling: Ext3, index_i: nat)
    requires
        index_i < layer.len(),
        layer.len() % 2 == 0,
        sibling == opened_pair_spec(layer_leaves(layer), index_i / 2)[1 - index_i % 2],
    ensures
        ({
            let pair = (index_i / 2) as int;
            let row = query_row(index_i, layer[index_i as int], sibling);
            &&& index_i % 2 == 0 ==> row == seq![layer[2 * pair], layer[2 * pair + 1].canon()]
            &&& index_i % 2 == 1 ==> row == seq![layer[2 * pair].canon(), layer[2 * pair + 1]]
            &&& values_of(flatten_spec(row)) == leaf_row(layer_leaves(layer)[0], index_i / 2)
        }),
{
    let pair = index_i / 2;
    lemma_layer_row(layer, pair);
    let a = layer[2 * (pair as int)];
    let b = layer[2 * (pair as int) + 1];
    let row = query_row(index_i, layer[index_i as int], sibling);
    lemma_row_values(a, b);
    if index_i % 2 == 0 {
        assert(row =~= seq![a, b.canon()]);
    } else {
        assert(row =~= seq![a.canon(), b]);
    }
}

/// The fold of the verifier's row is the entry of the prover's fold.
pub proof fn lemma_honest_fold(layer: Seq<Ext3>, beta: Ext3, row: Seq<Ext3>, pair: nat, log_folded_height: nat)
    requires
        layer.len() == pow2(log_folded_height + 1),
        2 * pair + 1 < layer.len(),
        row == seq![layer[2 * (pair as int)], layer[2 * (pair as int) + 1].canon()] || row == seq![
            layer[2 * (pair as int)].canon(),
            layer[2 * (pair as int) + 1],
        ],
    ensures
        fold_row_spec(pair, log_folded_height, row[0], row[1], beta) == fold_spec(
            layer,
            beta,
            univariate_twiddles_spec(layer.len() / 2),
        )[pair as int],
{
    lemma_pow2_unfold(log_folded_height + 1);
    lemma_univariate_twiddles_len(pow2(log_folded_height), log_folded_height);
    let a = layer[2 * (pair as int)];
    let b = layer[2 * (pair as int) + 1];
    let t = row_twiddle_spec(pair, log_folded_height);
    lemma_fold_pair_reduced(a, b, beta, t);
    assert(layer.len() / 2 == pow2(log_folded_height));
    let folded = fold_spec(layer, beta, univariate_twiddles_spec(layer.len() / 2));
    assert(folded[pair as int] == fold_pair_spec(a, b, beta, t));
}

/// One step of the verifier on an honest answer: where the value carried
/// is the entry of the layer at the queried index, and the commitment
/// scheme accepts its own opening, the step is accepted and carries on the
/// entry of the next layer.
pub proof fn lemma_honest_step(
    layer: Seq<Ext3>,
    beta: Ext3,
    extra: Option<Vec<Ext3>>,
    commit: Commitment,
    step: CommitPhaseProofStep,
    reduced: Option<Ext3>,
    index_i: nat,
    log_folded_height: nat,
)
    requires
        layer.len() == pow2(log_folded_height + 1),
        index_i < layer.len(),
        extra matches Some(v) ==> v@.len() == pow2(log_folded_height),
        step.sibling_value == opened_pair_spec(layer_leaves(layer), index_i / 2)[1 - index_i % 2],
        path_of(step.opening_proof@) == merkle_path(layer_leaves(layer), index_i / 2),
        reduced == (match extra {
            Some(v) => Some(v@[(index_i / 2) as int]),
            None => None,
        }),
        accepts_own_opening(commit, layer_leaves(layer), log_folded_height, index_i / 2),
    ensures
        step_accepts(commit, step, index_i, log_folded_height, layer[index_i as int]),
        step_value(step, beta, reduced, index_i, log_folded_height, layer[index_i as int])
            == next_layer_spec(layer, beta, extra)[(index_i / 2) as int],
{
    lemma_pow2_unfold(log_folded_height + 1);
    let pair = index_i / 2;
    let row = query_row(index_i, layer[index_i as int], step.sibling_value);
    lemma_honest_row(layer, step.sibling_value, index_i);
    lemma_honest_fold(layer, beta, row, pair, log_folded_height);
    lemma_univariate_twiddles_len(pow2(log_folded_height), log_folded_height);
    assert(step_accepts(commit, step, index_i, log_folded_height, layer[index_i as int])) by {
        reveal(step_accepts);
    }
    let folded = fold_spec(layer, beta, univariate_twiddles_spec(layer.len() / 2));
    assert(folded.len() == pow2(log_folded_height));
    assert(step_value(step, beta, reduced, index_i, log_folded_height, layer[index_i as int])
        == next_layer_spec(layer, beta, extra)[pair as int]) by {
        reveal(step_value);
    }
}

/// A row of a layer as the commitment scheme holds it is in reduced form.
pub proof fn lemma_layer_row_reduced(layer: Seq<Ext3>, log_folded_height: nat, pair: nat)
    requires
        layer.len() == pow2(log_folded_height + 1),
        pair < pow2(log_folded_height),
    ensures
        values_of(elements_of(leaf_row(layer_leaves(layer)[0], pair))) == leaf_row(
            layer_leaves(layer)[0],
            pair,
        ),
{
    lemma_pow2_unfold(log_folded_height + 1);
    let leaf = layer_leaves(layer)[0];
    let row = leaf_row(leaf, pair);
    assert(leaf.0.len() == 6 * pow2(log_folded_height));
    assert(6 * pair + 6 <= leaf.0.len()) by (nonlinear_arith)
        requires
            pair < pow2(log_folded_height),
            leaf.0.len() == 6 * pow2(log_folded_height),
    ;
    assert(leaf.1 == 6);
    assert(pair * leaf.1 == 6 * pair) by (nonlinear_arith)
        requires
            leaf.1 == 6,
    ;
    assert(row == leaf.0.subrange((6 * pair) as int, (6 * pair + 6) as int));
    assert(row.len() == 6);
    assert forall|j: int| 0 <= j < row.len() implies values_of(elements_of(row))[j] == row[j] by {
        let flat = flatten_spec(layer);
        assert(row[j] == leaf.0[6 * pair + j]);
        assert(leaf.0[6 * pair + j] == (flat[6 * pair + j].value % P) as u32);
        assert(row[j] < P);
        assert(elements_of(row)[j].value == row[j]);
        vstd::arithmetic::div_mod::lemma_small_mod(row[j] as nat, P as nat);
    }
    assert(values_of(elements_of(row)) =~= row);
}

/// The commitments are those to the layers that the input folds into.
pub open spec fn commits_shown(
    input: Seq<Option<Vec<Ext3>>>,
    log_max_height: nat,
    betas: Seq<Ext3>,
    commits: Seq<Commitment>,
    n: nat,
) -> bool {
    &&& betas.len() == n
    &&& commits.len() == n
    &&& forall|k: int|
        0 <= k < n ==> (#[trigger] commits[k]).root@ == merkle_root(
            layer_leaves(layer_spec(input, log_max_height, betas, k as nat)),
        )
}

/// Along an honest path the verifier arrives at the prover's layers: if
/// the commitments are those of the layers that the input folds into, the
/// steps of the query are the answers from those layers, which the
/// commitment scheme accepts, and the values that the verifier holds are
/// the entries of the input, then after `i` steps the verifier carries
/// entry `index / 2^i` of layer `i`.
pub proof fn lemma_honest_query(
    input: Seq<Option<Vec<Ext3>>>,
    log_max_height: nat,
    betas: Seq<Ext3>,
    commits: Seq<Commitment>,
    n: nat,
    query_proof: QueryProof,
    reduced: Seq<Option<Ext3>>,
    index: nat,
    i: nat,
)
    requires
        input_wf(input, log_max_height),
        n <= log_max_height,
        i <= n,
        commits_shown(input, log_max_height, betas, commits, n),
        index < pow2(log_max_height),
        query_shown(input, log_max_height, betas, n, query_proof, index),
        honest_reduced(input, reduced, index, log_max_height),
    ensures
        query_spec(
            commits,
            query_proof.commit_phase_openings@,
            betas,
            reduced,
            index,
            log_max_height,
            i,
        ) == Ok::<Ext3, FriError>(layer_spec(input, log_max_height, betas, i)[(index / pow2(i)) as int]),
    decreases i,
{
    let steps = query_proof.commit_phase_openings@;
    if i == 0 {
        lemma_query_start(commits, steps, betas, reduced, index, log_max_height);
        lemma_layer_unfold(input, log_max_height, betas, 0);
        vstd::arithmetic::power2::lemma2_to64();
        assert(index / 1 == index);
        assert(reduced[log_max_height as int] == Some(
            input[log_max_height as int].unwrap()@[index as int],
        ));
    } else {
        let k = (i - 1) as nat;
        lemma_honest_query(
            input,
            log_max_height,
            betas,
            commits,
            n,
            query_proof,
            reduced,
            index,
            k,
        );
        lemma_query_step(commits, steps, betas, reduced, index, log_max_height, k);
        let layer = layer_spec(input, log_max_height, betas, k);
        let lfh = (log_max_height - 1 - k) as nat;
        let index_k = index / pow2(k);
        lemma_layer_len(input, log_max_height, betas, k);
        lemma_index_bound(index, k, log_max_height);
        lemma_index_halved(index, k);
        lemma_layer_unfold(input, log_max_height, betas, i);
        lemma_pow2_unfold(lfh + 1);
        assert(commits[k as int].root@ == merkle_root(layer_leaves(layer)));
        assert(step_answers(steps[k as int], layer_leaves(layer), index, k, log_max_height));
        assert(lfh + 1 == log_max_height - k);
        lemma_layer_row_reduced(layer, lfh, index_k / 2);
        assert(accepts_own_opening(commits[k as int], layer_leaves(layer), lfh, index_k / 2));
        assert(reduced[lfh as int] == (match input[lfh as int] {
            Some(v) => Some(v@[(index / pow2((log_max_height - lfh) as nat)) as int]),
            None => None,
        }));
        lemma_honest_step(
            layer,
            betas[k as int],
            input[lfh as int],
            commits[k as int],
            steps[k as int],
            reduced[lfh as int],
            index_k,
            lfh,
        );
    }
}

/// The verifier accepts an honest query: under the conditions of
/// `lemma_honest_query`, if the last layer is constant with the final
/// value of the proof, the query ends in that value.
pub proof fn lemma_honest_query_ends_in_final_value(
    input: Seq<Option<Vec<Ext3>>>,
    log_max_height: nat,
    betas: Seq<Ext3>,
    commits: Seq<Commitment>,
    n: nat,
    query_proof: QueryProof,
    reduced: Seq<Option<Ext3>>,
    index: nat,
    final_poly: Ext3,
)
    requires
        input_wf(input, log_max_height),
        n <= log_max_height,
        commits_shown(input, log_max_height, betas, commits, n),
        index < pow2(log_max_height),
        query_shown(input, log_max_height, betas, n, query_proof, index),
        honest_reduced(input, reduced, index, log_max_height),
        constant_spec(layer_spec(input, log_max_height, betas, n), final_poly),
    ensures
        query_spec(
            commits,
            query_proof.commit_phase_openings@,
            betas,
            reduced,
            index,
            log_max_height,
            n,
        ) matches Ok(v) && v.canon() == final_poly.canon(),
{
    lemma_honest_query(input, log_max_height, betas, commits, n, query_proof, reduced, index, n);
    lemma_layer_len(input, log_max_height, betas, n);
    lemma_index_bound(index, n, log_max_height);
    let last = layer_spec(input, log_max_height, betas, n);
    let j = (index / pow2(n)) as int;
    lemma_pow2_pos(n);
    assert(0 <= j < last.len());
    assert(last[j].canon() == final_poly.canon());
}

/// The challenges of the first turns of the commit phase do not change
/// with the turns that follow.
pub proof fn lemma_commit_run_prefix(
    input: Seq<Option<Vec<Ext3>>>,
    log_max_height: nat,
    start: Transcript,
    i: nat,
    n: nat,
)
    requires
        i <= n,
    ensures
        commit_run(input, log_max_height, start, i).1 == commit_run(input, log_max_height, start, n).1.take(
            i as int,
        ),
    decreases n - i,
{
    lemma_commit_run_unfold(input, log_max_height, start, i);
    lemma_commit_run_unfold(input, log_max_height, start, n);
    let at_i = commit_run(input, log_max_height, start, i).1;
    let at_n = commit_run(input, log_max_height, start, n).1;
    if i == n {
        assert(at_i =~= at_n.take(i as int));
    } else {
        lemma_commit_run_prefix(input, log_max_height, start, i + 1, n);
        let next = commit_run(input, log_max_height, start, i + 1).1;
        assert(at_i =~= next.take(i as int));
        assert(at_i =~= at_n.take(i as int));
    }
}

/// The verifier's replay of the transcript is the prover's commit phase:
/// where the commitments are those to the layers that the input folds
/// into under the challenges of the commit phase, the verifier draws the
/// same challenges and leaves the transcript as the prover left it.
pub proof fn lemma_replay_follows_commit_phase(
    input: Seq<Option<Vec<Ext3>>>,
    log_max_height: nat,
    start: Transcript,
    commits: Seq<Commitment>,
    n: nat,
    i: nat,
)
    requires
        i <= n,
        commits_shown(
            input,
            log_max_height,
            commit_run(input, log_max_height, start, n).1,
            commits,
            n,
        ),
    ensures
        replay(commits, start, i) == commit_run(input, log_max_height, start, i),
    decreases i,
{
    lemma_replay_unfold(commits, start, 0);
    lemma_commit_run_unfold(input, log_max_height, start, 0);
    if i > 0 {
        let k = (i - 1) as nat;
        lemma_replay_follows_commit_phase(input, log_max_height, start, commits, n, k);
        lemma_replay_unfold(commits, start, k);
        lemma_commit_run_unfold(input, log_max_height, start, k);
        lemma_commit_run_prefix(input, log_max_height, start, k, n);
        let all = commit_run(input, log_max_height, start, n).1;
        let before = commit_run(input, log_max_height, start, k).1;
        lemma_layer_prefix(input, log_max_height, all, before, k);
        assert(commits[k as int].root@ == merkle_root(
            layer_leaves(layer_spec(input, log_max_height, all, k)),
        ));
    }
}

/// Every query of an honest proof checks out.
pub proof fn lemma_honest_queries(
    input: Seq<Option<Vec<Ext3>>>,
    log_max_height: nat,
    betas: Seq<Ext3>,
    log_blowup: usize,
    proof: FriProof,
    query_indices: Seq<usize>,
    reduced_openings: Seq<Vec<Option<Ext3>>>,
    q: nat,
)
    requires
        input_wf(input, log_max_height),
        log_blowup <= log_max_height,
        betas.len() == log_max_height - log_blowup,
        shows(log_blowup, input, log_max_height, betas, proof, query_indices),
        reduced_openings.len() == query_indices.len(),
        forall|k: int|
            0 <= k < query_indices.len() ==> honest_reduced(
                input,
                (#[trigger] reduced_openings[k])@,
                query_indices[k] as nat,
                log_max_height,
            ),
        q <= query_indices.len(),
    ensures
        queries_spec(proof, betas, query_indices, reduced_openings, log_max_height, q) == Ok::<
            (),
            FriError,
        >(()),
    decreases q,
{
    if q > 0 {
        let k = (q - 1) as nat;
        lemma_honest_queries(
            input,
            log_max_height,
            betas,
            log_blowup,
            proof,
            query_indices,
            reduced_openings,
            k,
        );
        let n = (log_max_height - log_blowup) as nat;
        assert(query_indices[k as int] < pow2(log_max_height));
        assert(query_shown(
            input,
            log_max_height,
            betas,
            n,
            proof.query_proofs@[k as int],
            query_indices[k as int] as nat,
        ));
        lemma_honest_query_ends_in_final_value(
            input,
            log_max_height,
            betas,
            proof.commit_phase_commits@,
            n,
            proof.query_proofs@[k as int],
            reduced_openings[k as int]@,
            query_indices[k as int] as nat,
            proof.final_poly,
        );
    }
}

/// The verifier accepts what the prover proves: where the prover has
/// succeeded on an input and a transcript, and the values that the
/// verifier holds are the entries of the input at the indices drawn, the
/// verifier, started on the same transcript, accepts the proof and leaves
/// the transcript as the prover left it.
pub proof fn lemma_verifier_accepts_prover(
    num_queries: usize,
    log_blowup: usize,
    pow_bits: usize,
    input: Seq<Option<Vec<Ext3>>>,
    start: Transcript,
    proof: FriProof,
    query_indices: Seq<usize>,
    end: Transcript,
    reduced_openings: Seq<Vec<Option<Ext3>>>,
)
    requires
        prove_shape_ok(log_blowup, pow_bits, input),
        prove_ok(log_blowup, pow_bits, num_queries, input, start, proof, query_indices, end),
        reduced_openings.len() == query_indices.len(),
        forall|k: int|
            0 <= k < query_indices.len() ==> honest_reduced(
                input,
                (#[trigger] reduced_openings[k])@,
                query_indices[k] as nat,
                last_some_spec(input, input.len()).unwrap(),
            ),
    ensures
        verify_spec(num_queries, log_blowup, pow_bits, proof, start, reduced_openings) == Ok::<
            (),
            FriError,
        >(()),
        verify_end(num_queries, log_blowup, pow_bits, proof, start, reduced_openings) == end,
{
    let h = last_some_spec(input, input.len()).unwrap();
    let n = (h - log_blowup) as nat;
    let run = commit_run(input, h, start, n);
    let commits = proof.commit_phase_commits@;
    lemma_last_some(input, input.len());
    assert(input_wf(input, h));
    lemma_commit_run_unfold(input, h, start, n);
    lemma_replay_follows_commit_phase(input, h, start, commits, n, n);
    let checked = run.0.after_witness(pow_bits as nat, proof.pow_witness);
    lemma_draw_indices_unfold(checked, h, num_queries as nat);
    assert(proof_shape_ok(num_queries, log_blowup, pow_bits, proof)) by {
        assert forall|q: int| 0 <= q < proof.query_proofs@.len() implies (
        #[trigger] proof.query_proofs@[q]).commit_phase_openings@.len() == commits.len() by {
            assert(query_shown(
                input,
                h,
                run.1,
                n,
                proof.query_proofs@[q],
                query_indices[q] as nat,
            ));
        }
    }
    assert(openings_shape_ok(log_blowup, proof, reduced_openings)) by {
        assert forall|q: int| 0 <= q < reduced_openings.len() implies (
        #[trigger] reduced_openings[q])@.len() == h + 1 && reduced_openings[q]@[h as int] is Some by {
            assert(honest_reduced(input, reduced_openings[q]@, query_indices[q] as nat, h));
            assert(reduced_openings[q]@[h as int] == Some(
                input[h as int].unwrap()@[(query_indices[q] as nat / pow2(0)) as int],
            ));
        }
    }
    assert(challenges_fit(log_blowup, proof, run.1, query_indices, reduced_openings)) by {
        assert forall|q: int| 0 <= q < proof.query_proofs@.len() implies #[trigger] query_fits(
            query_indices,
            reduced_openings,
            h,
            q,
        ) by {
            assert(honest_reduced(input, reduced_openings[q]@, query_indices[q] as nat, h));
        }
    }
    lemma_honest_queries(
        input,
        h,
        run.1,
        log_blowup,
        proof,
        query_indices,
        reduced_openings,
        query_indices.len(),
    );
}

/// The verifier of openings accepts what opening gives: where the rounds
/// have been opened on a transcript, the verifier, started on the same
/// transcript, accepts the proof and leaves the transcript as opening left
/// it.
pub proof fn lemma_verifier_accepts_opening(
    log_blowup: usize,
    config: FriConfig<ExtensionMmcs<BaseMmcs>>,
    rounds: Seq<(&ProverData, Vec<Vec<Ext3>>)>,
    start: Transcript,
    values: Vec<Vec<Vec<Vec<Ext3>>>>,
    proof: PcsProof,
    end: Transcript,
)
    requires
        open_outcome(
            log_blowup,
            config.log_blowup,
            config.proof_of_work_bits,
            config.num_queries,
            rounds,
            start,
            Ok::<(Vec<Vec<Vec<Vec<Ext3>>>>, PcsProof), FriError>((values, proof)),
            end,
        ),
    ensures
        crate::pcs::verify_spec(
            config.num_queries,
            config.log_blowup,
            config.proof_of_work_bits,
            proof,
            start,
        ) == Ok::<(), FriError>(()),
        crate::pcs::verify_end(
            config.num_queries,
            config.log_blowup,
            config.proof_of_work_bits,
            proof,
            start,
        ) == end,
{
    let result = Ok::<(Vec<Vec<Vec<Vec<Ext3>>>>, PcsProof), FriError>((values, proof));
    let drawn = start.sample().1.sample().1;
    let input = choose|input: Seq<Option<Vec<Ext3>>>| #[trigger]
        open_outcome_with(
            config.log_blowup,
            config.proof_of_work_bits,
            config.num_queries,
            input,
            drawn,
            result,
            end,
        );
    let h = last_some_spec(input, input.len()).unwrap();
    let n = (h - config.log_blowup) as nat;
    let run = commit_run(input, h, drawn, n);
    let indices = draw_indices_spec(
        run.0.after_witness(config.proof_of_work_bits as nat, proof.fri_proof.pow_witness),
        h,
        config.num_queries as nat,
    ).1;
    assert forall|k: int| 0 <= k < indices.len() implies honest_reduced(
        input,
        (#[trigger] proof.reduced_openings@[k])@,
        indices[k] as nat,
        h,
    ) by {
        assert(query_openings_match(proof.reduced_openings@, input, indices, h, k));
    }
    lemma_verifier_accepts_prover(
        config.num_queries,
        config.log_blowup,
        config.proof_of_work_bits,
        input,
        drawn,
        proof.fri_proof,
        indices,
        end,
        proof.reduced_openings@,
    );
}

} // verus!
