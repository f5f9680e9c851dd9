//! The FRI low-degree test over circle domains: the prover folds a vector
//! down to a constant, committing to every layer, and answers queries into
//! the layers; the verifier replays the folds along each queried path.

use vstd::prelude::*;
use vstd::arithmetic::power2::{pow2, lemma_pow2_pos, lemma_pow2_unfold, lemma_pow2_strictly_increases};
use crate::challenger::{Challenger, Transcript, MAX_GRINDING_BITS};
use crate::extension::{Ext3, M31Algebra};
use crate::extension_mmcs::{flat_leaves, flatten_spec, unflatten_spec, Commitment, ExtProverData, ExtensionMmcs, BaseMmcs, ext_inputs_wf};
use crate::field::{Field, Ring};
use crate::domain::CircleDomain;
use crate::field::inverse_or_zero;
use crate::folding::{circle_bitrev_idx, fold_pair_spec, fold_spec, fold_univariate, lemma_circle_bitrev_idx_bound, univariate_twiddles_spec};
use crate::matrix::{Dimensions, RowMajorMatrix};
use crate::mersenne31::M31;
use crate::mmcs::{elements_of, leaf_height, leaf_row, max_height_spec, merkle_accepts, merkle_path, merkle_root, opened_row_index, path_of, values_of, Leaf};
use crate::util::{copy_vec, is_power_of_two, lemma_log2_unique, log2_spec, pow2_usize};

verus! {

/// The parameters of the test, and the scheme that commits to its layers.
pub struct FriConfig<M> {
    pub log_blowup: usize,
    pub num_queries: usize,
    pub proof_of_work_bits: usize,
    pub mmcs: M,
}

impl<M> FriConfig<M> {
    /// The length at which folding stops: two to the power `log_blowup`.
    pub fn blowup(&self) -> (r: usize)
        requires
            self.log_blowup < usize::BITS,
        ensures
            r == pow2(self.log_blowup as nat),
    {
        proof {
            vstd::bits::lemma_usize_pow2_no_overflow(self.log_blowup as nat);
        }
        pow2_usize(self.log_blowup)
    }
}

/// Why the prover gave up or the verifier turned a proof down.
#[derive(Clone, Copy, PartialEq, Eq, Structural, Debug)]
pub enum FriError {
    /// The proof or the inputs do not have the shape that the parameters ask for.
    MalformedInput,
    /// The proof-of-work witness does not pass.
    InsufficientWork,
    /// An opening does not lead to the commitment of its layer.
    OpeningProofInvalid,
    /// The folds along a queried path do not end in the final value.
    InconsistentFold,
    /// The prover's last layer is not constant.
    MalformedWitness,
}

/// What one query shows of one layer: the value next to the queried one,
/// and the proof that opens the pair.
pub struct CommitPhaseProofStep {
    pub sibling_value: Ext3,
    pub opening_proof: Vec<[u8; 32]>,
}

/// The answers to one query, layer by layer from the tallest.
pub struct QueryProof {
    pub commit_phase_openings: Vec<CommitPhaseProofStep>,
}

/// A proof that a vector is close to the values of a polynomial of low degree.
pub struct FriProof {
    pub commit_phase_commits: Vec<Commitment>,
    pub query_proofs: Vec<QueryProof>,
    pub final_poly: Ext3,
    pub pow_witness: M31,
}

/// What the commit phase leaves: the commitments to the layers, what the
/// prover keeps of them, the constant they fold down to, and the challenges
/// that were drawn on the way.
pub struct CommitPhaseResult {
    pub commits: Vec<Commitment>,
    pub data: Vec<ExtProverData<BaseMmcs>>,
    pub final_poly: Ext3,
    pub betas: Vec<Ext3>,
}

/// The largest height exponent of a vector that can be folded.
pub const MAX_LOG_HEIGHT: usize = 28;

/// The vectors to be tested, by the exponent of their length: entry `h`, if
/// there is one, has `2^h` values.
pub open spec fn input_wf(input: Seq<Option<Vec<Ext3>>>, log_max_height: nat) -> bool {
    &&& log_max_height < input.len()
    &&& log_max_height <= MAX_LOG_HEIGHT
    &&& input[log_max_height as int] is Some
    &&& forall|h: int|
        0 <= h < input.len() ==> ((#[trigger] input[h]) matches Some(v) ==> v@.len() == pow2(h as nat))
}

/// `cur` with `extra` added entry by entry, where there is an `extra`.
pub open spec fn combine_spec(cur: Seq<Ext3>, extra: Option<Vec<Ext3>>) -> Seq<Ext3> {
    match extra {
        Some(v) => Seq::new(cur.len(), |i: int| cur[i].plus_spec(v@[i])),
        None => cur,
    }
}

/// The layer after `cur`: `cur` folded with `beta`, and the input of the
/// new length added to it.
pub open spec fn next_layer_spec(cur: Seq<Ext3>, beta: Ext3, extra: Option<Vec<Ext3>>) -> Seq<Ext3> {
    combine_spec(fold_spec(cur, beta, univariate_twiddles_spec(cur.len() / 2)), extra)
}

/// Layer `i` of the commit phase: layer zero is the tallest input, and each
/// further layer is the one before it folded with the challenge of its turn.
#[verifier::opaque]
pub open spec fn layer_spec(
    input: Seq<Option<Vec<Ext3>>>,
    log_max_height: nat,
    betas: Seq<Ext3>,
    i: nat,
) -> Seq<Ext3>
    decreases i,
{
    if i == 0 {
        input[log_max_height as int].unwrap()@
    } else {
        next_layer_spec(
            layer_spec(input, log_max_height, betas, (i - 1) as nat),
            betas[i - 1],
            input[log_max_height - i],
        )
    }
}

/// The leaves that the commitment to a layer is made over: one matrix of
/// the layer's values, two to a row.
pub open spec fn layer_leaves(layer: Seq<Ext3>) -> Seq<Leaf> {
    seq![(values_of(flatten_spec(layer)), 6nat)]
}

/// A layer has the length that its turn gives it.
pub proof fn lemma_layer_len(
    input: Seq<Option<Vec<Ext3>>>,
    log_max_height: nat,
    betas: Seq<Ext3>,
    i: nat,
)
    requires
        input_wf(input, log_max_height),
        i <= log_max_height,
    ensures
        layer_spec(input, log_max_height, betas, i).len() == pow2((log_max_height - i) as nat),
    decreases i,
{
    reveal_with_fuel(layer_spec, 2);
    if i > 0 {
        lemma_layer_len(input, log_max_height, betas, (i - 1) as nat);
        let prev = layer_spec(input, log_max_height, betas, (i - 1) as nat);
        lemma_pow2_unfold((log_max_height - i + 1) as nat);
        lemma_univariate_twiddles_len(prev.len() / 2, (log_max_height - i) as nat);
    }
}

/// There are as many twiddles as pairs.
pub proof fn lemma_univariate_twiddles_len(height: nat, k: nat)
    requires
        height == pow2(k),
    ensures
        univariate_twiddles_spec(height).len() == height,
{
    reveal(univariate_twiddles_spec);
}

/// A layer after the first is the one before it, folded and combined.
pub proof fn lemma_layer_unfold(
    input: Seq<Option<Vec<Ext3>>>,
    log_max_height: nat,
    betas: Seq<Ext3>,
    i: nat,
)
    ensures
        i == 0 ==> layer_spec(input, log_max_height, betas, i) == input[log_max_height as int].unwrap()@,
        i > 0 ==> layer_spec(input, log_max_height, betas, i) == next_layer_spec(
            layer_spec(input, log_max_height, betas, (i - 1) as nat),
            betas[i - 1],
            input[log_max_height - i],
        ),
{
    reveal_with_fuel(layer_spec, 2);
}

/// A layer depends only on the challenges of the turns before it.
pub proof fn lemma_layer_prefix(
    input: Seq<Option<Vec<Ext3>>>,
    log_max_height: nat,
    b1: Seq<Ext3>,
    b2: Seq<Ext3>,
    i: nat,
)
    requires
        i <= b1.len(),
        i <= b2.len(),
        forall|j: int| 0 <= j < i ==> b1[j] == b2[j],
    ensures
        layer_spec(input, log_max_height, b1, i) == layer_spec(input, log_max_height, b2, i),
    decreases i,
{
    reveal_with_fuel(layer_spec, 2);
    if i > 0 {
        lemma_layer_prefix(input, log_max_height, b1, b2, (i - 1) as nat);
    }
}

/// Adds `extra`, where there is one, to `cur` entry by entry.
pub fn combine(cur: Vec<Ext3>, extra: &Option<Vec<Ext3>>) -> (r: Vec<Ext3>)
    requires
        extra matches Some(v) ==> v@.len() == cur@.len(),
    ensures
        r@ == combine_spec(cur@, *extra),
{
    match extra {
        None => cur,
        Some(v) => {
            let mut out: Vec<Ext3> = Vec::new();
            let mut i: usize = 0;
            while i < cur.len()
                invariant
                    v@.len() == cur@.len(),
                    i <= cur@.len(),
                    out@.len() == i,
                    forall|k: int| 0 <= k < i ==> out@[k] == cur@[k].plus_spec(v@[k]),
                decreases cur@.len() - i,
            {
                out.push(cur[i].plus(v[i]));
                i += 1;
            }
            proof {
                assert(out@ =~= combine_spec(cur@, *extra));
            }
            out
        },
    }
}

/// Whether every entry of `layer` stands for the same element as `value`.
pub open spec fn constant_spec(layer: Seq<Ext3>, value: Ext3) -> bool {
    forall|j: int| 0 <= j < layer.len() ==> (#[trigger] layer[j]).canon() == value.canon()
}

/// The first entry of a layer all of whose entries are the same element.
pub fn constant_value(layer: &Vec<Ext3>) -> (r: Result<Ext3, FriError>)
    requires
        layer@.len() > 0,
    ensures
        r is Ok <==> constant_spec(layer@, layer@[0]),
        r matches Ok(v) ==> v == layer@[0],
        r matches Err(e) ==> e == FriError::MalformedWitness,
{
    let first = layer[0];
    let mut j: usize = 0;
    while j < layer.len()
        invariant
            j <= layer@.len(),
            first == layer@[0],
            forall|k: int| 0 <= k < j ==> (#[trigger] layer@[k]).canon() == first.canon(),
        decreases layer@.len() - j,
    {
        if !layer[j].same(first) {
            return Err(FriError::MalformedWitness);
        }
        j += 1;
    }
    Ok(first)
}

/// Commitment `i` and what the prover keeps of it are those of layer `i`.
#[verifier::opaque]
pub open spec fn layer_committed(
    input: Seq<Option<Vec<Ext3>>>,
    log_max_height: nat,
    betas: Seq<Ext3>,
    commits: Seq<Commitment>,
    data: Seq<ExtProverData<BaseMmcs>>,
    i: int,
) -> bool {
    let leaves = layer_leaves(layer_spec(input, log_max_height, betas, i as nat));
    &&& commits[i].root@ == merkle_root(leaves)
    &&& data[i].leaves() == leaves
    &&& data[i].wf()
}

/// The first `n` layers and their commitments are those of the given input
/// and challenges.
pub open spec fn commits_match(
    input: Seq<Option<Vec<Ext3>>>,
    log_max_height: nat,
    betas: Seq<Ext3>,
    commits: Seq<Commitment>,
    data: Seq<ExtProverData<BaseMmcs>>,
    n: nat,
) -> bool {
    &&& betas.len() == n
    &&& commits.len() == n
    &&& data.len() == n
    &&& forall|i: int|
        0 <= i < n ==> #[trigger] layer_committed(input, log_max_height, betas, commits, data, i)
}

/// The machine can count the coefficients of the tallest layer.
pub open spec fn height_fits(log_max_height: nat) -> bool {
    pow2(log_max_height) * 3 <= usize::MAX
}

/// One turn of the commit phase: commits to `current`, has the commitment
/// observed, draws a challenge, folds `current` with it and adds `extra`.
pub fn commit_layer(
    config: &FriConfig<ExtensionMmcs<BaseMmcs>>,
    current: Vec<Ext3>,
    extra: &Option<Vec<Ext3>>,
    log_folded_height: usize,
    challenger: &mut Challenger,
) -> (r: (Commitment, ExtProverData<BaseMmcs>, Ext3, Vec<Ext3>))
    requires
        log_folded_height < MAX_LOG_HEIGHT,
        current@.len() == pow2((log_folded_height + 1) as nat),
        height_fits((log_folded_height + 1) as nat),
        extra matches Some(v) ==> v@.len() == pow2(log_folded_height as nat),
    ensures
        r.0.root@ == merkle_root(layer_leaves(current@)),
        r.1.leaves() == layer_leaves(current@),
        r.1.wf(),
        r.3@ == next_layer_spec(current@, r.2, *extra),
        r.3@.len() == pow2(log_folded_height as nat),
        r.2 == old(challenger)@.observe(r.0.root@).sample().0,
        final(challenger)@ == old(challenger)@.observe(r.0.root@).sample().1,
{
    proof {
        lemma_pow2_unfold((log_folded_height + 1) as nat);
        lemma_pow2_pos(log_folded_height as nat);
        lemma_log2_unique(pow2(log_folded_height as nat), log_folded_height as nat);
    }
    let ghost layer = current@;
    let committed = RowMajorMatrix { values: copy_vec(&current), width: 2 };
    let evals = RowMajorMatrix { values: current, width: 2 };
    let mut batch: Vec<RowMajorMatrix<Ext3>> = Vec::new();
    batch.push(committed);
    proof {
        assert(evals.height_spec() == pow2(log_folded_height as nat));
        assert(batch@[0].height_spec() == pow2(log_folded_height as nat));
        assert(ext_inputs_wf(batch@));
        assert(flat_leaves(batch@) =~= layer_leaves(layer));
    }
    let (commit, prover_data) = config.mmcs.commit(batch);
    challenger.observe(&commit);
    let beta = challenger.sample();
    let folded = fold_univariate(&evals, beta);
    let next = combine(folded, extra);
    (commit, prover_data, beta, next)
}

/// The commitments stay those of the layers when a turn is added.
pub proof fn lemma_commits_match_push(
    input: Seq<Option<Vec<Ext3>>>,
    log_max_height: nat,
    betas: Seq<Ext3>,
    commits: Seq<Commitment>,
    data: Seq<ExtProverData<BaseMmcs>>,
    n: nat,
    beta: Ext3,
    commit: Commitment,
    prover_data: ExtProverData<BaseMmcs>,
)
    requires
        commits_match(input, log_max_height, betas, commits, data, n),
        commit.root@ == merkle_root(layer_leaves(layer_spec(input, log_max_height, betas, n))),
        prover_data.leaves() == layer_leaves(layer_spec(input, log_max_height, betas, n)),
        prover_data.wf(),
    ensures
        commits_match(
            input,
            log_max_height,
            betas.push(beta),
            commits.push(commit),
            data.push(prover_data),
            n + 1,
        ),
        layer_spec(input, log_max_height, betas.push(beta), n + 1) == next_layer_spec(
            layer_spec(input, log_max_height, betas, n),
            beta,
            input[log_max_height - n - 1],
        ),
{
    let b2 = betas.push(beta);
    let c2 = commits.push(commit);
    let d2 = data.push(prover_data);
    lemma_layer_prefix(input, log_max_height, b2, betas, n);
    assert(b2[n as int] == beta);
    lemma_layer_unfold(input, log_max_height, b2, n + 1);
    assert forall|i: int| 0 <= i < n + 1 implies #[trigger] layer_committed(
        input,
        log_max_height,
        b2,
        c2,
        d2,
        i,
    ) by {
        lemma_layer_prefix(input, log_max_height, b2, betas, i as nat);
        reveal(layer_committed);
        if i < n {
            assert(layer_committed(input, log_max_height, betas, commits, data, i));
            assert(c2[i] == commits[i]);
            assert(d2[i] == data[i]);
        }
    }
}

/// What the first `i` turns of the commit phase make of a transcript, and
/// the challenges that they draw: in every turn the commitment to the
/// layer is observed, and then the challenge that folds the layer is drawn.
#[verifier::opaque]
pub open spec fn commit_run(
    input: Seq<Option<Vec<Ext3>>>,
    log_max_height: nat,
    start: Transcript,
    i: nat,
) -> (Transcript, Seq<Ext3>)
    decreases i,
{
    if i == 0 {
        (start, Seq::empty())
    } else {
        let before = commit_run(input, log_max_height, start, (i - 1) as nat);
        let layer = layer_spec(input, log_max_height, before.1, (i - 1) as nat);
        let drawn = before.0.observe(merkle_root(layer_leaves(layer))).sample();
        (drawn.1, before.1.push(drawn.0))
    }
}

/// What one more turn makes of the commit phase.
pub proof fn lemma_commit_run_unfold(
    input: Seq<Option<Vec<Ext3>>>,
    log_max_height: nat,
    start: Transcript,
    i: nat,
)
    ensures
        commit_run(input, log_max_height, start, 0) == (start, Seq::<Ext3>::empty()),
        commit_run(input, log_max_height, start, i + 1) == ({
            let before = commit_run(input, log_max_height, start, i);
            let layer = layer_spec(input, log_max_height, before.1, i);
            let drawn = before.0.observe(merkle_root(layer_leaves(layer))).sample();
            (drawn.1, before.1.push(drawn.0))
        }),
        commit_run(input, log_max_height, start, i).1.len() == i,
    decreases i,
{
    reveal_with_fuel(commit_run, 2);
    if i > 0 {
        lemma_commit_run_unfold(input, log_max_height, start, (i - 1) as nat);
    }
}

/// Folds the tallest input down to `2^log_blowup` values, layer by layer:
/// each layer is committed and the commitment observed, a challenge is
/// drawn, the layer is folded with it, and the input of the new length, if
/// there is one, is added.
///
/// It succeeds exactly where the last layer, under the challenges that the
/// transcript gives, is constant. With nothing to fold it draws nothing and
/// leaves the transcript as it was.
pub fn commit_phase(
    config: &FriConfig<ExtensionMmcs<BaseMmcs>>,
    input: &Vec<Option<Vec<Ext3>>>,
    log_max_height: usize,
    challenger: &mut Challenger,
) -> (r: Result<CommitPhaseResult, FriError>)
    requires
        input_wf(input@, log_max_height as nat),
        config.log_blowup <= log_max_height,
        height_fits(log_max_height as nat),
    ensures
        ({
            let n = (log_max_height - config.log_blowup) as nat;
            let run = commit_run(input@, log_max_height as nat, old(challenger)@, n);
            let last = layer_spec(input@, log_max_height as nat, run.1, n);
            &&& final(challenger)@ == run.0
            &&& r is Ok <==> constant_spec(last, last[0])
            &&& r matches Ok(res) ==> res.betas@ == run.1
        }),
        log_max_height == config.log_blowup ==> ({
            let tallest = input@[log_max_height as int].unwrap()@;
            &&& final(challenger)@ == old(challenger)@
            &&& r is Ok <==> constant_spec(tallest, tallest[0])
        }),
        r matches Ok(res) ==> {
            let n = (log_max_height - config.log_blowup) as nat;
            let last = layer_spec(input@, log_max_height as nat, res.betas@, n);
            &&& commits_match(
                input@,
                log_max_height as nat,
                res.betas@,
                res.commits@,
                res.data@,
                n,
            )
            &&& last.len() == pow2(config.log_blowup as nat)
            &&& res.final_poly == last[0]
            &&& constant_spec(last, res.final_poly)
        },
        r matches Err(e) ==> e == FriError::MalformedWitness,
{
    let n = log_max_height - config.log_blowup;
    let ghost start = challenger@;
    let mut current: Vec<Ext3> = match &input[log_max_height] {
        Some(v) => copy_vec(v),
        None => Vec::new(),
    };
    let mut commits: Vec<Commitment> = Vec::new();
    let mut data: Vec<ExtProverData<BaseMmcs>> = Vec::new();
    let mut betas: Vec<Ext3> = Vec::new();
    let mut i: usize = 0;
    proof {
        lemma_layer_unfold(input@, log_max_height as nat, betas@, 0);
        lemma_commit_run_unfold(input@, log_max_height as nat, start, 0);
        assert(betas@ =~= Seq::<Ext3>::empty());
    }
    while i < n
        invariant
            input_wf(input@, log_max_height as nat),
            height_fits(log_max_height as nat),
            n == log_max_height - config.log_blowup,
            i <= n,
            current@ == layer_spec(input@, log_max_height as nat, betas@, i as nat),
            commits_match(input@, log_max_height as nat, betas@, commits@, data@, i as nat),
            commit_run(input@, log_max_height as nat, start, i as nat) == (challenger@, betas@),
        decreases n - i,
    {
        let log_folded_height = log_max_height - 1 - i;
        proof {
            lemma_commit_run_unfold(input@, log_max_height as nat, start, i as nat);
            lemma_layer_len(input@, log_max_height as nat, betas@, i as nat);
            if log_folded_height + 1 < log_max_height {
                lemma_pow2_strictly_increases((log_folded_height + 1) as nat, log_max_height as nat);
            }
        }
        let (commit, prover_data, beta, next) = commit_layer(
            config,
            current,
            &input[log_folded_height],
            log_folded_height,
            challenger,
        );
        proof {
            lemma_commits_match_push(
                input@,
                log_max_height as nat,
                betas@,
                commits@,
                data@,
                i as nat,
                beta,
                commit,
                prover_data,
            );
        }
        current = next;
        commits.push(commit);
        data.push(prover_data);
        betas.push(beta);
        i += 1;
    }
    proof {
        lemma_layer_len(input@, log_max_height as nat, betas@, n as nat);
        lemma_layer_unfold(input@, log_max_height as nat, betas@, 0);
        lemma_commit_run_unfold(input@, log_max_height as nat, start, 0);
        lemma_pow2_pos(config.log_blowup as nat);
    }
    match constant_value(&current) {
        Ok(final_poly) => Ok(CommitPhaseResult { commits, data, final_poly, betas }),
        Err(e) => Err(e),
    }
}

/// The values that opening row `pair` of a committed layer shows.
pub open spec fn opened_pair_spec(leaves: Seq<Leaf>, pair: nat) -> Seq<Ext3> {
    unflatten_spec(elements_of(leaf_row(leaves[0], opened_row_index(leaves, 0, pair))))
}

/// What the prover keeps of layer `i` has the shape of a layer: one matrix
/// of `2^(log_max_height - 1 - i)` rows of two values.
pub open spec fn layer_data_wf(data: Seq<ExtProverData<BaseMmcs>>, log_max_height: nat) -> bool {
    &&& data.len() <= log_max_height
    &&& forall|i: int|
        0 <= i < data.len() ==> {
            &&& (#[trigger] data[i]).wf()
            &&& data[i].leaves().len() == 1
            &&& data[i].leaves()[0].1 == 6
            &&& leaf_height(data[i].leaves()[0]) == pow2((log_max_height - 1 - i) as nat)
        }
}

/// The commitment scheme accepts the opening that it gives of row `pair` of
/// a layer under the commitment that it makes to the layer.
pub open spec fn own_opening_accepted(leaves: Seq<Leaf>, log_folded_height: nat, pair: nat) -> bool {
    merkle_accepts(
        merkle_root(leaves),
        layer_dims(log_folded_height),
        pair,
        seq![values_of(elements_of(leaf_row(leaves[0], pair)))],
        merkle_path(leaves, pair),
    )
}

/// The answer to a query at `index` into layer `i`: the value next to the
/// queried one, and the proof that opens the two, which the commitment
/// scheme accepts.
pub open spec fn step_answers(
    step: CommitPhaseProofStep,
    leaves: Seq<Leaf>,
    index: nat,
    i: nat,
    log_max_height: nat,
) -> bool {
    let index_i = index / pow2(i);
    let pair = index_i / 2;
    &&& step.sibling_value == opened_pair_spec(leaves, pair)[1 - index_i % 2]
    &&& path_of(step.opening_proof@) == merkle_path(leaves, pair)
    &&& own_opening_accepted(leaves, (log_max_height - 1 - i) as nat, pair)
}

/// A single matrix is opened at the row that the index names.
pub proof fn lemma_single_leaf_index(leaves: Seq<Leaf>, index: nat)
    requires
        leaves.len() == 1,
    ensures
        opened_row_index(leaves, 0, index) == index,
        max_height_spec(leaves, 1) == leaf_height(leaves[0]),
{
    reveal_with_fuel(max_height_spec, 2);
    vstd::arithmetic::power2::lemma2_to64();
    assert(index / 1 == index);
}

/// Answers a query at `index`: for each layer, the sibling of the queried
/// value and the proof that opens the pair of them.
pub fn answer_query(
    config: &FriConfig<ExtensionMmcs<BaseMmcs>>,
    commit_phase_commits: &Vec<ExtProverData<BaseMmcs>>,
    index: usize,
    log_max_height: usize,
) -> (r: QueryProof)
    requires
        log_max_height <= MAX_LOG_HEIGHT,
        index < pow2(log_max_height as nat),
        layer_data_wf(commit_phase_commits@, log_max_height as nat),
    ensures
        r.commit_phase_openings@.len() == commit_phase_commits@.len(),
        forall|i: int|
            0 <= i < commit_phase_commits@.len() ==> step_answers(
                #[trigger] r.commit_phase_openings@[i],
                commit_phase_commits@[i].leaves(),
                index as nat,
                i as nat,
                log_max_height as nat,
            ),
{
    let mut openings: Vec<CommitPhaseProofStep> = Vec::new();
    let mut i: usize = 0;
    while i < commit_phase_commits.len()
        invariant
            log_max_height <= MAX_LOG_HEIGHT,
            index < pow2(log_max_height as nat),
            layer_data_wf(commit_phase_commits@, log_max_height as nat),
            i <= commit_phase_commits@.len(),
            openings@.len() == i,
            forall|k: int|
                0 <= k < i ==> step_answers(
                    #[trigger] openings@[k],
                    commit_phase_commits@[k].leaves(),
                    index as nat,
                    k as nat,
                    log_max_height as nat,
                ),
        decreases commit_phase_commits@.len() - i,
    {
        let step = answer_layer(config, &commit_phase_commits[i], index, i, log_max_height);
        openings.push(step);
        i += 1;
    }
    QueryProof { commit_phase_openings: openings }
}

/// The index into layer `i`: `index` without its `i` lowest digits.
pub fn layer_index(index: usize, i: usize, log_max_height: usize) -> (r: usize)
    requires
        i < log_max_height,
        log_max_height <= MAX_LOG_HEIGHT,
        index < pow2(log_max_height as nat),
    ensures
        r == index as nat / pow2(i as nat),
        r < pow2((log_max_height - i) as nat),
        r / 2 < pow2((log_max_height - 1 - i) as nat),
{
    proof {
        lemma_pow2_unfold((log_max_height - i) as nat);
    }
    shift_index(index, i, log_max_height)
}

/// `index` without its `shift` lowest digits, for an index below
/// `2^log_max_height`.
pub fn shift_index(index: usize, shift: usize, log_max_height: usize) -> (r: usize)
    requires
        shift <= log_max_height,
        log_max_height <= MAX_LOG_HEIGHT,
        index < pow2(log_max_height as nat),
    ensures
        r == index as nat / pow2(shift as nat),
        r < pow2((log_max_height - shift) as nat),
{
    proof {
        vstd::bits::lemma_usize_shr_is_div(index, shift);
        lemma_pow2_pos(shift as nat);
        vstd::arithmetic::power2::lemma_pow2_adds(shift as nat, (log_max_height - shift) as nat);
        let x = index as int;
        let d = pow2(shift as nat) as int;
        let q = x / d;
        let rem = x % d;
        let m = pow2((log_max_height - shift) as nat) as int;
        vstd::arithmetic::div_mod::lemma_fundamental_div_mod(x, d);
        assert(q < m) by (nonlinear_arith)
            requires
                x < d * m,
                x == d * q + rem,
                0 <= rem,
                d > 0,
        ;
    }
    index >> shift
}

/// Answers a query into one layer.
pub fn answer_layer(
    config: &FriConfig<ExtensionMmcs<BaseMmcs>>,
    prover_data: &ExtProverData<BaseMmcs>,
    index: usize,
    i: usize,
    log_max_height: usize,
) -> (r: CommitPhaseProofStep)
    requires
        i < log_max_height,
        log_max_height <= MAX_LOG_HEIGHT,
        index < pow2(log_max_height as nat),
        prover_data.wf(),
        prover_data.leaves().len() == 1,
        prover_data.leaves()[0].1 == 6,
        leaf_height(prover_data.leaves()[0]) == pow2((log_max_height - 1 - i) as nat),
    ensures
        step_answers(r, prover_data.leaves(), index as nat, i as nat, log_max_height as nat),
{
    let index_i = layer_index(index, i, log_max_height);
    let index_i_sibling = index_i ^ 1;
    let index_pair = index_i >> 1;
    proof {
        assert(index_pair == index_i / 2 && index_i_sibling % 2 == 1 - index_i % 2) by (bit_vector)
            requires
                index_pair == index_i >> 1,
                index_i_sibling == index_i ^ 1,
        ;
        lemma_single_leaf_index(prover_data.leaves(), index_pair as nat);
    }
    let (opened_rows, opening_proof) = config.mmcs.open_batch(index_pair, prover_data);
    let opened_row = &opened_rows[0];
    proof {
        let leaf = prover_data.leaves()[0];
        let h = leaf_height(leaf);
        vstd::arithmetic::div_mod::lemma_fundamental_div_mod(leaf.0.len() as int, 6);
        assert(6 * index_pair + 6 <= leaf.0.len()) by (nonlinear_arith)
            requires
                index_pair < h,
                leaf.0.len() == 6 * h,
        ;
        assert(leaf_row(leaf, index_pair as nat).len() == 6);
        assert(opened_row@.len() == 2);
        assert(crate::mmcs::leaf_dims(prover_data.leaves()) =~= layer_dims(
            (log_max_height - 1 - i) as nat,
        ));
        assert(crate::mmcs::opened_rows(prover_data.leaves(), index_pair as nat) =~= seq![
            values_of(elements_of(leaf_row(leaf, index_pair as nat))),
        ]);
    }
    let sibling_value = opened_row[index_i_sibling % 2];
    CommitPhaseProofStep { sibling_value, opening_proof }
}

/// The position of the last entry among the first `n` that holds a vector.
pub open spec fn last_some_spec(input: Seq<Option<Vec<Ext3>>>, n: nat) -> Option<nat>
    decreases n,
{
    if n == 0 {
        None
    } else if input[n - 1] is Some {
        Some((n - 1) as nat)
    } else {
        last_some_spec(input, (n - 1) as nat)
    }
}

/// Every vector of the input has the length of its position, and none is
/// taller than can be folded.
pub open spec fn input_lengths_ok(input: Seq<Option<Vec<Ext3>>>) -> bool {
    forall|h: int|
        0 <= h < input.len() ==> ((#[trigger] input[h]) matches Some(v) ==> h <= MAX_LOG_HEIGHT
            && v@.len() == pow2(h as nat))
}

/// The input and the parameters can be proved with: there is a vector, the
/// vectors have the lengths of their positions, the tallest is no shorter
/// than the length at which folding stops, the machine can count its
/// coefficients, and the proof of work is within what can be drawn.
pub open spec fn prove_shape_ok(log_blowup: usize, pow_bits: usize, input: Seq<Option<Vec<Ext3>>>) -> bool {
    &&& input_lengths_ok(input)
    &&& last_some_spec(input, input.len()) matches Some(h) && log_blowup <= h && height_fits(h)
    &&& pow_bits <= MAX_GRINDING_BITS
}

/// The exponent of the tallest vector of the input, if the lengths are right.
pub fn log_max_height_of(input: &Vec<Option<Vec<Ext3>>>) -> (r: Option<usize>)
    ensures
        r is Some <==> input_lengths_ok(input@) && last_some_spec(input@, input@.len()) is Some,
        r matches Some(h) ==> last_some_spec(input@, input@.len()) == Some(h as nat) && input_wf(
            input@,
            h as nat,
        ),
{
    let mut last: Option<usize> = None;
    let mut h: usize = 0;
    while h < input.len()
        invariant
            h <= input@.len(),
            forall|k: int|
                0 <= k < h ==> ((#[trigger] input@[k]) matches Some(v) ==> k <= MAX_LOG_HEIGHT
                    && v@.len() == pow2(k as nat)),
            last matches Some(l) ==> last_some_spec(input@, h as nat) == Some(l as nat),
            last is None ==> last_some_spec(input@, h as nat) is None,
        decreases input@.len() - h,
    {
        match &input[h] {
            None => {},
            Some(v) => {
                if h > MAX_LOG_HEIGHT {
                    return None;
                }
                proof {
                    vstd::bits::lemma_usize_pow2_no_overflow(h as nat);
                }
                if v.len() != pow2_usize(h) {
                    return None;
                }
                last = Some(h);
            },
        }
        h += 1;
    }
    proof {
        if let Some(l) = last {
            lemma_last_some(input@, input@.len());
        }
    }
    last
}

/// The last entry that holds a vector is an entry that holds a vector.
pub proof fn lemma_last_some(input: Seq<Option<Vec<Ext3>>>, n: nat)
    requires
        n <= input.len(),
    ensures
        last_some_spec(input, n) matches Some(h) ==> h < n && input[h as int] is Some,
    decreases n,
{
    if n > 0 {
        lemma_last_some(input, (n - 1) as nat);
    }
}

/// Whether `3 * 2^h` can be counted.
pub fn check_height_fits(h: usize) -> (r: bool)
    requires
        h <= MAX_LOG_HEIGHT,
    ensures
        r == height_fits(h as nat),
{
    proof {
        vstd::bits::lemma_usize_pow2_no_overflow(h as nat);
    }
    pow2_usize(h) <= usize::MAX / 3
}

/// Answers the queries at the given indices.
pub fn answer_queries(
    config: &FriConfig<ExtensionMmcs<BaseMmcs>>,
    data: &Vec<ExtProverData<BaseMmcs>>,
    query_indices: &Vec<usize>,
    log_max_height: usize,
) -> (r: Vec<QueryProof>)
    requires
        log_max_height <= MAX_LOG_HEIGHT,
        layer_data_wf(data@, log_max_height as nat),
        forall|q: int| 0 <= q < query_indices@.len() ==> query_indices@[q] < pow2(log_max_height as nat),
    ensures
        r@.len() == query_indices@.len(),
        forall|q: int|
            0 <= q < r@.len() ==> query_answers(
                #[trigger] r@[q],
                data@,
                query_indices@[q] as nat,
                log_max_height as nat,
            ),
{
    let mut out: Vec<QueryProof> = Vec::new();
    let mut q: usize = 0;
    while q < query_indices.len()
        invariant
            log_max_height <= MAX_LOG_HEIGHT,
            layer_data_wf(data@, log_max_height as nat),
            forall|q: int|
                0 <= q < query_indices@.len() ==> query_indices@[q] < pow2(log_max_height as nat),
            q <= query_indices@.len(),
            out@.len() == q,
            forall|k: int|
                0 <= k < q ==> query_answers(
                    #[trigger] out@[k],
                    data@,
                    query_indices@[k] as nat,
                    log_max_height as nat,
                ),
        decreases query_indices@.len() - q,
    {
        out.push(answer_query(config, data, query_indices[q], log_max_height));
        q += 1;
    }
    out
}

/// The proof of one query answers it: every step shows the sibling and the
/// opening of its layer.
pub open spec fn query_answers(
    proof: QueryProof,
    data: Seq<ExtProverData<BaseMmcs>>,
    index: nat,
    log_max_height: nat,
) -> bool {
    &&& proof.commit_phase_openings@.len() == data.len()
    &&& forall|i: int|
        0 <= i < data.len() ==> step_answers(
            #[trigger] proof.commit_phase_openings@[i],
            data[i].leaves(),
            index,
            i as nat,
            log_max_height,
        )
}

/// The layers of a finished commit phase have the shape of layers.
pub proof fn lemma_commits_match_wf(
    input: Seq<Option<Vec<Ext3>>>,
    log_max_height: nat,
    betas: Seq<Ext3>,
    commits: Seq<Commitment>,
    data: Seq<ExtProverData<BaseMmcs>>,
    n: nat,
)
    requires
        input_wf(input, log_max_height),
        n <= log_max_height,
        commits_match(input, log_max_height, betas, commits, data, n),
    ensures
        layer_data_wf(data, log_max_height),
{
    assert forall|i: int| 0 <= i < data.len() implies {
        &&& (#[trigger] data[i]).wf()
        &&& data[i].leaves().len() == 1
        &&& data[i].leaves()[0].1 == 6
        &&& leaf_height(data[i].leaves()[0]) == pow2((log_max_height - 1 - i) as nat)
    } by {
        assert(layer_committed(input, log_max_height, betas, commits, data, i));
        reveal(layer_committed);
        lemma_layer_len(input, log_max_height, betas, i as nat);
        let layer = layer_spec(input, log_max_height, betas, i as nat);
        lemma_pow2_unfold((log_max_height - i) as nat);
        assert(flatten_spec(layer).len() == 6 * pow2((log_max_height - 1 - i) as nat));
        vstd::arithmetic::div_mod::lemma_div_multiples_vanish(
            pow2((log_max_height - 1 - i) as nat) as int,
            6,
        );
    }
}

/// What a proof shows of the input: its commitments are those of the layers
/// that the input folds into under the challenges `betas`, its final value
/// is what the last layer holds throughout, and each query is answered from
/// the layers.
pub open spec fn proves(
    log_blowup: usize,
    input: Seq<Option<Vec<Ext3>>>,
    log_max_height: nat,
    proof: FriProof,
    query_indices: Seq<usize>,
    betas: Seq<Ext3>,
    data: Seq<ExtProverData<BaseMmcs>>,
) -> bool {
    let n = (log_max_height - log_blowup) as nat;
    let last = layer_spec(input, log_max_height, betas, n);
    &&& commits_match(input, log_max_height, betas, proof.commit_phase_commits@, data, n)
    &&& proof.final_poly == last[0]
    &&& constant_spec(last, proof.final_poly)
    &&& proof.query_proofs@.len() == query_indices.len()
    &&& forall|q: int|
        0 <= q < query_indices.len() ==> query_indices[q] < pow2(log_max_height) && query_answers(
            #[trigger] proof.query_proofs@[q],
            data,
            query_indices[q] as nat,
            log_max_height,
        )
}

/// The answers of one query are those from the layers that the input
/// folds into under the challenges `betas`, and the commitment scheme
/// accepts their openings.
pub open spec fn query_shown(
    input: Seq<Option<Vec<Ext3>>>,
    log_max_height: nat,
    betas: Seq<Ext3>,
    n: nat,
    query_proof: QueryProof,
    index: nat,
) -> bool {
    &&& query_proof.commit_phase_openings@.len() == n
    &&& forall|i: int|
        0 <= i < n ==> step_answers(
            #[trigger] query_proof.commit_phase_openings@[i],
            layer_leaves(layer_spec(input, log_max_height, betas, i as nat)),
            index,
            i as nat,
            log_max_height,
        )
}

/// What a proof shows of the input under the challenges `betas`: its
/// commitments are the roots of the layers that the input folds into, its
/// final value is what the last layer holds throughout, and every query is
/// answered from the layers.
pub open spec fn shows(
    log_blowup: usize,
    input: Seq<Option<Vec<Ext3>>>,
    log_max_height: nat,
    betas: Seq<Ext3>,
    proof: FriProof,
    query_indices: Seq<usize>,
) -> bool {
    let n = (log_max_height - log_blowup) as nat;
    let last = layer_spec(input, log_max_height, betas, n);
    &&& proof.commit_phase_commits@.len() == n
    &&& forall|i: int|
        0 <= i < n ==> (#[trigger] proof.commit_phase_commits@[i]).root@ == merkle_root(
            layer_leaves(layer_spec(input, log_max_height, betas, i as nat)),
        )
    &&& proof.final_poly == last[0]
    &&& constant_spec(last, proof.final_poly)
    &&& proof.query_proofs@.len() == query_indices.len()
    &&& forall|q: int|
        0 <= q < query_indices.len() ==> #[trigger] query_indices[q] < pow2(log_max_height)
    &&& forall|q: int|
        0 <= q < query_indices.len() ==> query_shown(
            input,
            log_max_height,
            betas,
            n,
            #[trigger] proof.query_proofs@[q],
            query_indices[q] as nat,
        )
}

/// What the prover keeps of the layers can be left out of what a proof shows.
pub proof fn lemma_shows(
    log_blowup: usize,
    input: Seq<Option<Vec<Ext3>>>,
    log_max_height: nat,
    proof: FriProof,
    query_indices: Seq<usize>,
    betas: Seq<Ext3>,
    data: Seq<ExtProverData<BaseMmcs>>,
)
    requires
        proves(log_blowup, input, log_max_height, proof, query_indices, betas, data),
    ensures
        shows(log_blowup, input, log_max_height, betas, proof, query_indices),
{
    let n = (log_max_height - log_blowup) as nat;
    let commits = proof.commit_phase_commits@;
    assert forall|i: int| 0 <= i < n implies (#[trigger] commits[i]).root@ == merkle_root(
        layer_leaves(layer_spec(input, log_max_height, betas, i as nat)),
    ) by {
        assert(layer_committed(input, log_max_height, betas, commits, data, i));
        reveal(layer_committed);
    }
    assert forall|q: int| 0 <= q < query_indices.len() implies #[trigger] query_indices[q] < pow2(
        log_max_height,
    ) by {
        assert(query_answers(proof.query_proofs@[q], data, query_indices[q] as nat, log_max_height));
    }
    assert forall|q: int| 0 <= q < query_indices.len() implies query_shown(
        input,
        log_max_height,
        betas,
        n,
        #[trigger] proof.query_proofs@[q],
        query_indices[q] as nat,
    ) by {
        let qp = proof.query_proofs@[q];
        assert(query_answers(qp, data, query_indices[q] as nat, log_max_height));
        assert forall|i: int| 0 <= i < n implies step_answers(
            #[trigger] qp.commit_phase_openings@[i],
            layer_leaves(layer_spec(input, log_max_height, betas, i as nat)),
            query_indices[q] as nat,
            i as nat,
            log_max_height,
        ) by {
            assert(layer_committed(input, log_max_height, betas, commits, data, i));
            reveal(layer_committed);
        }
    }
}

/// What drawing `q` indices of `bits` digits makes of a transcript, and the
/// indices drawn.
#[verifier::opaque]
pub open spec fn draw_indices_spec(start: Transcript, bits: nat, q: nat) -> (Transcript, Seq<usize>)
    decreases q,
{
    if q == 0 {
        (start, Seq::empty())
    } else {
        let before = draw_indices_spec(start, bits, (q - 1) as nat);
        let drawn = before.0.sample_bits(bits);
        (drawn.1, before.1.push(drawn.0))
    }
}

/// What one more draw makes of the indices.
pub proof fn lemma_draw_indices_unfold(start: Transcript, bits: nat, q: nat)
    ensures
        draw_indices_spec(start, bits, 0) == (start, Seq::<usize>::empty()),
        draw_indices_spec(start, bits, q + 1) == ({
            let before = draw_indices_spec(start, bits, q);
            let drawn = before.0.sample_bits(bits);
            (drawn.1, before.1.push(drawn.0))
        }),
        draw_indices_spec(start, bits, q).1.len() == q,
    decreases q,
{
    reveal_with_fuel(draw_indices_spec, 2);
    if q > 0 {
        lemma_draw_indices_unfold(start, bits, (q - 1) as nat);
    }
}

/// Draws `count` indices of `bits` digits from the transcript, one after
/// another.
pub fn draw_indices(challenger: &mut Challenger, bits: usize, count: usize) -> (r: Vec<usize>)
    requires
        bits <= crate::challenger::MAX_SAMPLE_BITS,
    ensures
        r@ == draw_indices_spec(old(challenger)@, bits as nat, count as nat).1,
        final(challenger)@ == draw_indices_spec(old(challenger)@, bits as nat, count as nat).0,
        r@.len() == count,
        forall|q: int| 0 <= q < count ==> #[trigger] r@[q] < pow2(bits as nat),
{
    let ghost start = challenger@;
    let mut indices: Vec<usize> = Vec::new();
    let mut q: usize = 0;
    proof {
        lemma_draw_indices_unfold(start, bits as nat, 0);
        assert(indices@ =~= Seq::<usize>::empty());
    }
    while q < count
        invariant
            bits <= crate::challenger::MAX_SAMPLE_BITS,
            q <= count,
            indices@.len() == q,
            draw_indices_spec(start, bits as nat, q as nat) == (challenger@, indices@),
            forall|k: int| 0 <= k < q ==> #[trigger] indices@[k] < pow2(bits as nat),
        decreases count - q,
    {
        proof {
            lemma_draw_indices_unfold(start, bits as nat, q as nat);
        }
        indices.push(challenger.sample_bits(bits));
        q += 1;
    }
    indices
}

/// What a successful run of the prover has done: the witness is one that
/// the transcript accepts after the commit phase, the indices are those
/// that the transcript gives after the witness has been checked, the
/// transcript is left as it is after the last draw, and the proof shows the
/// input under the challenges of the commit phase.
pub open spec fn prove_ok(
    log_blowup: usize,
    pow_bits: usize,
    num_queries: usize,
    input: Seq<Option<Vec<Ext3>>>,
    start: Transcript,
    proof: FriProof,
    query_indices: Seq<usize>,
    end: Transcript,
) -> bool {
    let h = last_some_spec(input, input.len()).unwrap();
    let run = commit_run(input, h, start, (h - log_blowup) as nat);
    let drawn = draw_indices_spec(
        run.0.after_witness(pow_bits as nat, proof.pow_witness),
        h,
        num_queries as nat,
    );
    &&& run.0.accepts(pow_bits as nat, proof.pow_witness)
    &&& query_indices == drawn.1
    &&& end == drawn.0
    &&& shows(log_blowup, input, h, run.1, proof, query_indices)
}

/// Proves that the vectors of `input` are close to low degree: runs the
/// commit phase, grinds for the proof of work, draws the query indices and
/// answers the queries.
///
/// It turns down an input of the wrong shape before it touches the
/// transcript. Else it runs the commit phase, and succeeds exactly where
/// the last layer, under the challenges that the transcript gives, is
/// constant; then it grinds once, and draws the indices after that.
pub fn prove(
    config: &FriConfig<ExtensionMmcs<BaseMmcs>>,
    input: &Vec<Option<Vec<Ext3>>>,
    challenger: &mut Challenger,
) -> (r: Result<(FriProof, Vec<usize>), FriError>)
    ensures
        r == Err::<(FriProof, Vec<usize>), FriError>(FriError::MalformedInput) <==> !prove_shape_ok(
            config.log_blowup,
            config.proof_of_work_bits,
            input@,
        ),
        r matches Err(e) ==> e == FriError::MalformedInput || e == FriError::MalformedWitness,
        r matches Ok(out) ==> out.1@.len() == config.num_queries,
        r matches Ok(out) ==> forall|q: int|
            0 <= q < out.1@.len() ==> #[trigger] out.1@[q] < pow2(
                last_some_spec(input@, input@.len()).unwrap(),
            ),
        !prove_shape_ok(config.log_blowup, config.proof_of_work_bits, input@) ==> final(challenger)@
            == old(challenger)@,
        prove_shape_ok(config.log_blowup, config.proof_of_work_bits, input@) ==> ({
            let h = last_some_spec(input@, input@.len()).unwrap();
            let n = (h - config.log_blowup) as nat;
            let run = commit_run(input@, h, old(challenger)@, n);
            let last = layer_spec(input@, h, run.1, n);
            &&& r is Ok <==> constant_spec(last, last[0])
            &&& r is Err ==> final(challenger)@ == run.0
            &&& r matches Ok(out) ==> prove_ok(
                config.log_blowup,
                config.proof_of_work_bits,
                config.num_queries,
                input@,
                old(challenger)@,
                out.0,
                out.1@,
                final(challenger)@,
            )
        }),
{
    let log_max_height = match log_max_height_of(input) {
        Some(h) => h,
        None => {
            return Err(FriError::MalformedInput);
        },
    };
    proof {
        lemma_last_some(input@, input@.len());
    }
    if config.log_blowup > log_max_height || !check_height_fits(log_max_height)
        || config.proof_of_work_bits > MAX_GRINDING_BITS {
        return Err(FriError::MalformedInput);
    }
    let result = match commit_phase(config, input, log_max_height, challenger) {
        Ok(res) => res,
        Err(e) => {
            return Err(e);
        },
    };
    let pow_witness = challenger.grind(config.proof_of_work_bits);
    let query_indices = draw_indices(challenger, log_max_height, config.num_queries);
    proof {
        lemma_commits_match_wf(
            input@,
            log_max_height as nat,
            result.betas@,
            result.commits@,
            result.data@,
            (log_max_height - config.log_blowup) as nat,
        );
    }
    let query_proofs = answer_queries(config, &result.data, &query_indices, log_max_height);
    let ghost betas = result.betas@;
    let ghost data = result.data@;
    let fri_proof = FriProof {
        commit_phase_commits: result.commits,
        query_proofs,
        final_poly: result.final_poly,
        pow_witness,
    };
    proof {
        assert(last_some_spec(input@, input@.len()).unwrap() == log_max_height as nat);
        assert(proves(
            config.log_blowup,
            input@,
            log_max_height as nat,
            fri_proof,
            query_indices@,
            betas,
            data,
        ));
        lemma_shows(
            config.log_blowup,
            input@,
            log_max_height as nat,
            fri_proof,
            query_indices@,
            betas,
            data,
        );
    }
    Ok((fri_proof, query_indices))
}

/// The twiddle of row `index_pair` of a layer of `2^log_folded_height` rows.
pub open spec fn row_twiddle_spec(index_pair: nat, log_folded_height: nat) -> M31 {
    univariate_twiddles_spec(pow2(log_folded_height))[index_pair as int]
}

/// One row folded as the prover folds it: with the twiddle of its position.
pub open spec fn fold_row_spec(
    index_pair: nat,
    log_folded_height: nat,
    lo: Ext3,
    hi: Ext3,
    beta: Ext3,
) -> Ext3 {
    fold_pair_spec(lo, hi, beta, row_twiddle_spec(index_pair, log_folded_height))
}

/// Folds one row of a layer of `2^log_folded_height` rows.
pub fn fold_row(index_pair: usize, log_folded_height: usize, lo: Ext3, hi: Ext3, beta: Ext3) -> (r: Ext3)
    requires
        log_folded_height < MAX_LOG_HEIGHT,
        index_pair < pow2(log_folded_height as nat),
    ensures
        r == fold_row_spec(index_pair as nat, log_folded_height as nat, lo, hi, beta),
{
    reveal(univariate_twiddles_spec);
    let j = circle_bitrev_idx(index_pair, log_folded_height);
    let domain = CircleDomain::standard(log_folded_height + 2);
    let point = domain.point(j);
    let t = inverse_or_zero(point.re);
    proof {
        lemma_log2_unique(pow2(log_folded_height as nat), log_folded_height as nat);
        lemma_circle_bitrev_idx_bound(index_pair as nat, log_folded_height as nat);
    }
    let sum = lo.plus(hi);
    let diff = lo.minus(hi).times(Ext3::embed(t));
    sum.plus(beta.times(diff)).halve()
}

/// The dimensions of a layer of `2^log_folded_height` rows of two values.
pub open spec fn layer_dims(log_folded_height: nat) -> Seq<(nat, nat)> {
    seq![(6nat, pow2(log_folded_height))]
}

/// The row of a layer that holds `value` and `sibling`, the queried value
/// standing first where its index is even.
pub open spec fn query_row(index_i: nat, value: Ext3, sibling: Ext3) -> Seq<Ext3> {
    if index_i % 2 == 0 {
        seq![value, sibling]
    } else {
        seq![sibling, value]
    }
}

/// Whether the commitment scheme accepts the row of a step.
#[verifier::opaque]
pub open spec fn step_accepts(
    commit: Commitment,
    step: CommitPhaseProofStep,
    index_i: nat,
    log_folded_height: nat,
    value: Ext3,
) -> bool {
    merkle_accepts(
        commit.root@,
        layer_dims(log_folded_height),
        index_i / 2,
        seq![values_of(flatten_spec(query_row(index_i, value, step.sibling_value)))],
        path_of(step.opening_proof@),
    )
}

/// The value that a step carries on: the row folded, and the value that the
/// verifier holds for the new length added, where there is one.
#[verifier::opaque]
pub open spec fn step_value(
    step: CommitPhaseProofStep,
    beta: Ext3,
    extra: Option<Ext3>,
    index_i: nat,
    log_folded_height: nat,
    value: Ext3,
) -> Ext3 {
    let row = query_row(index_i, value, step.sibling_value);
    let folded = fold_row_spec(index_i / 2, log_folded_height, row[0], row[1], beta);
    match extra {
        Some(x) => folded.plus_spec(x),
        None => folded,
    }
}

/// What the verifier makes of the first `i` steps of a query: the value it
/// carries, or why it gave up.
#[verifier::opaque]
pub open spec fn query_spec(
    commits: Seq<Commitment>,
    steps: Seq<CommitPhaseProofStep>,
    betas: Seq<Ext3>,
    reduced: Seq<Option<Ext3>>,
    index: nat,
    log_max_height: nat,
    i: nat,
) -> Result<Ext3, FriError>
    decreases i,
{
    if i == 0 {
        match reduced[log_max_height as int] {
            Some(v) => Ok(v),
            None => Err(FriError::MalformedInput),
        }
    } else {
        match query_spec(commits, steps, betas, reduced, index, log_max_height, (i - 1) as nat) {
            Err(e) => Err(e),
            Ok(value) => {
                let index_i = index / pow2((i - 1) as nat);
                let lfh = (log_max_height - i) as nat;
                if step_accepts(commits[i - 1], steps[i - 1], index_i, lfh, value) {
                    Ok(step_value(steps[i - 1], betas[i - 1], reduced[lfh as int], index_i, lfh, value))
                } else {
                    Err(FriError::OpeningProofInvalid)
                }
            },
        }
    }
}

/// One step of the verifier along a queried path.
pub fn verify_step(
    config: &FriConfig<ExtensionMmcs<BaseMmcs>>,
    commit: &Commitment,
    step: &CommitPhaseProofStep,
    beta: Ext3,
    extra: Option<Ext3>,
    index_i: usize,
    log_folded_height: usize,
    value: Ext3,
) -> (r: Result<Ext3, FriError>)
    requires
        log_folded_height < MAX_LOG_HEIGHT,
        index_i < pow2((log_folded_height + 1) as nat),
    ensures
        r is Ok <==> step_accepts(*commit, *step, index_i as nat, log_folded_height as nat, value),
        r matches Ok(v) ==> v == step_value(
            *step,
            beta,
            extra,
            index_i as nat,
            log_folded_height as nat,
            value,
        ),
        r matches Err(e) ==> e == FriError::OpeningProofInvalid,
{
    let index_pair = index_i / 2;
    proof {
        reveal(step_accepts);
        reveal(step_value);
        lemma_pow2_unfold((log_folded_height + 1) as nat);
        vstd::bits::lemma_usize_pow2_no_overflow(log_folded_height as nat);
    }
    let (lo, hi) = if index_i % 2 == 0 {
        (value, step.sibling_value)
    } else {
        (step.sibling_value, value)
    };
    let mut row: Vec<Ext3> = Vec::new();
    row.push(lo);
    row.push(hi);
    let mut rows: Vec<Vec<Ext3>> = Vec::new();
    rows.push(row);
    let mut dims: Vec<Dimensions> = Vec::new();
    dims.push(Dimensions { width: 2, height: pow2_usize(log_folded_height) });
    proof {
        assert(row@ =~= query_row(index_i as nat, value, step.sibling_value));
        assert(crate::extension_mmcs::flat_dims(dims@) =~= layer_dims(log_folded_height as nat));
        assert(crate::extension_mmcs::flat_rows(rows@) =~= seq![
            values_of(flatten_spec(query_row(index_i as nat, value, step.sibling_value))),
        ]);
        assert(crate::extension_mmcs::flat_fits(dims@, rows@));
        vstd::arithmetic::power2::lemma2_to64();
        if log_folded_height < 27 {
            lemma_pow2_strictly_increases(log_folded_height as nat, 27);
        }
        assert(crate::mmcs::heights_fit(dims@));
    }
    match config.mmcs.verify_batch(commit, &dims, index_pair, &rows, &step.opening_proof) {
        Err(_) => Err(FriError::OpeningProofInvalid),
        Ok(()) => {
            let folded = fold_row(index_pair, log_folded_height, lo, hi, beta);
            match extra {
                Some(x) => Ok(folded.plus(x)),
                None => Ok(folded),
            }
        },
    }
}

/// The verifier starts from the value that it holds for the tallest height.
pub proof fn lemma_query_start(
    commits: Seq<Commitment>,
    steps: Seq<CommitPhaseProofStep>,
    betas: Seq<Ext3>,
    reduced: Seq<Option<Ext3>>,
    index: nat,
    log_max_height: nat,
)
    ensures
        query_spec(commits, steps, betas, reduced, index, log_max_height, 0) == match reduced[log_max_height as int] {
            Some(v) => Ok::<Ext3, FriError>(v),
            None => Err::<Ext3, FriError>(FriError::MalformedInput),
        },
{
    reveal_with_fuel(query_spec, 1);
}

/// What one more step makes of a query.
pub proof fn lemma_query_step(
    commits: Seq<Commitment>,
    steps: Seq<CommitPhaseProofStep>,
    betas: Seq<Ext3>,
    reduced: Seq<Option<Ext3>>,
    index: nat,
    log_max_height: nat,
    i: nat,
)
    ensures
        query_spec(commits, steps, betas, reduced, index, log_max_height, i + 1) == match query_spec(
            commits,
            steps,
            betas,
            reduced,
            index,
            log_max_height,
            i,
        ) {
            Err(e) => Err::<Ext3, FriError>(e),
            Ok(value) => {
                let index_i = index / pow2(i);
                let lfh = (log_max_height - i - 1) as nat;
                if step_accepts(commits[i as int], steps[i as int], index_i, lfh, value) {
                    Ok::<Ext3, FriError>(
                        step_value(
                            steps[i as int],
                            betas[i as int],
                            reduced[lfh as int],
                            index_i,
                            lfh,
                            value,
                        ),
                    )
                } else {
                    Err::<Ext3, FriError>(FriError::OpeningProofInvalid)
                }
            },
        },
{
    reveal_with_fuel(query_spec, 2);
}

/// Follows one query through all the layers of the proof.
pub fn verify_query(
    config: &FriConfig<ExtensionMmcs<BaseMmcs>>,
    commits: &Vec<Commitment>,
    query_proof: &QueryProof,
    betas: &Vec<Ext3>,
    reduced: &Vec<Option<Ext3>>,
    index: usize,
    log_max_height: usize,
) -> (r: Result<Ext3, FriError>)
    requires
        log_max_height <= MAX_LOG_HEIGHT,
        commits@.len() <= log_max_height,
        query_proof.commit_phase_openings@.len() == commits@.len(),
        betas@.len() == commits@.len(),
        reduced@.len() == log_max_height + 1,
        index < pow2(log_max_height as nat),
    ensures
        r == query_spec(
            commits@,
            query_proof.commit_phase_openings@,
            betas@,
            reduced@,
            index as nat,
            log_max_height as nat,
            commits@.len(),
        ),
{
    let steps = &query_proof.commit_phase_openings;
    proof {
        lemma_query_start(
            commits@,
            steps@,
            betas@,
            reduced@,
            index as nat,
            log_max_height as nat,
        );
    }
    let mut value = match reduced[log_max_height] {
        Some(v) => v,
        None => {
            proof {
                lemma_query_stays_failed(
                    commits@,
                    steps@,
                    betas@,
                    reduced@,
                    index as nat,
                    log_max_height as nat,
                    0,
                    commits@.len(),
                );
            }
            return Err(FriError::MalformedInput);
        },
    };
    let mut i: usize = 0;
    while i < commits.len()
        invariant
            log_max_height <= MAX_LOG_HEIGHT,
            commits@.len() <= log_max_height,
            steps@ == query_proof.commit_phase_openings@,
            steps@.len() == commits@.len(),
            betas@.len() == commits@.len(),
            reduced@.len() == log_max_height + 1,
            index < pow2(log_max_height as nat),
            i <= commits@.len(),
            query_spec(
                commits@,
                steps@,
                betas@,
                reduced@,
                index as nat,
                log_max_height as nat,
                i as nat,
            ) == Ok::<Ext3, FriError>(value),
        decreases commits@.len() - i,
    {
        let index_i = layer_index(index, i, log_max_height);
        let lfh = log_max_height - 1 - i;
        proof {
            lemma_query_step(
                commits@,
                steps@,
                betas@,
                reduced@,
                index as nat,
                log_max_height as nat,
                i as nat,
            );
        }
        match verify_step(config, &commits[i], &steps[i], betas[i], reduced[lfh], index_i, lfh, value) {
            Ok(v) => {
                value = v;
            },
            Err(e) => {
                proof {
                    lemma_query_stays_failed(
                        commits@,
                        steps@,
                        betas@,
                        reduced@,
                        index as nat,
                        log_max_height as nat,
                        (i + 1) as nat,
                        commits@.len(),
                    );
                }
                return Err(e);
            },
        }
        i += 1;
    }
    Ok(value)
}

/// Once the verifier has given up on a query it does not take it up again.
pub proof fn lemma_query_stays_failed(
    commits: Seq<Commitment>,
    steps: Seq<CommitPhaseProofStep>,
    betas: Seq<Ext3>,
    reduced: Seq<Option<Ext3>>,
    index: nat,
    log_max_height: nat,
    i: nat,
    n: nat,
)
    requires
        i <= n,
        query_spec(commits, steps, betas, reduced, index, log_max_height, i) is Err,
    ensures
        query_spec(commits, steps, betas, reduced, index, log_max_height, n) == query_spec(
            commits,
            steps,
            betas,
            reduced,
            index,
            log_max_height,
            i,
        ),
    decreases n - i,
{
    if i < n {
        lemma_query_stays_failed(
            commits,
            steps,
            betas,
            reduced,
            index,
            log_max_height,
            i,
            (n - 1) as nat,
        );
        lemma_query_step(commits, steps, betas, reduced, index, log_max_height, (n - 1) as nat);
    }
}

/// The challenges that the verifier draws for a proof.
pub struct FriChallenges {
    pub query_indices: Vec<usize>,
    pub betas: Vec<Ext3>,
}

/// The proof has the shape that the parameters ask for: as many queries as
/// asked, each with a step for every layer, and no more layers than can be
/// folded.
pub open spec fn proof_shape_ok(
    num_queries: usize,
    log_blowup: usize,
    pow_bits: usize,
    proof: FriProof,
) -> bool {
    &&& proof.query_proofs@.len() == num_queries
    &&& forall|q: int|
        0 <= q < proof.query_proofs@.len() ==> (#[trigger] proof.query_proofs@[q]).commit_phase_openings@.len()
            == proof.commit_phase_commits@.len()
    &&& proof.commit_phase_commits@.len() + log_blowup <= MAX_LOG_HEIGHT
    &&& pow_bits <= MAX_GRINDING_BITS
}

/// Checks the shape of a proof against the parameters.
pub fn check_proof_shape<M>(config: &FriConfig<M>, proof: &FriProof) -> (r: bool)
    ensures
        r == proof_shape_ok(config.num_queries, config.log_blowup, config.proof_of_work_bits, *proof),
{
    if proof.query_proofs.len() != config.num_queries {
        return false;
    }
    if config.log_blowup > MAX_LOG_HEIGHT || proof.commit_phase_commits.len() > MAX_LOG_HEIGHT
        - config.log_blowup {
        return false;
    }
    if config.proof_of_work_bits > MAX_GRINDING_BITS {
        return false;
    }
    let mut q: usize = 0;
    while q < proof.query_proofs.len()
        invariant
            q <= proof.query_proofs@.len(),
            forall|k: int|
                0 <= k < q ==> (#[trigger] proof.query_proofs@[k]).commit_phase_openings@.len()
                    == proof.commit_phase_commits@.len(),
        decreases proof.query_proofs@.len() - q,
    {
        if proof.query_proofs[q].commit_phase_openings.len() != proof.commit_phase_commits.len() {
            return false;
        }
        q += 1;
    }
    true
}

/// What taking in the first `i` commitments, and drawing a challenge after
/// each, makes of a transcript, and the challenges drawn.
#[verifier::opaque]
pub open spec fn replay(commits: Seq<Commitment>, start: Transcript, i: nat) -> (Transcript, Seq<Ext3>)
    decreases i,
{
    if i == 0 {
        (start, Seq::empty())
    } else {
        let before = replay(commits, start, (i - 1) as nat);
        let drawn = before.0.observe(commits[i - 1].root@).sample();
        (drawn.1, before.1.push(drawn.0))
    }
}

/// What one more commitment makes of the transcript and the challenges.
pub proof fn lemma_replay_unfold(commits: Seq<Commitment>, start: Transcript, i: nat)
    ensures
        replay(commits, start, 0) == (start, Seq::<Ext3>::empty()),
        replay(commits, start, i + 1) == ({
            let before = replay(commits, start, i);
            let drawn = before.0.observe(commits[i as int].root@).sample();
            (drawn.1, before.1.push(drawn.0))
        }),
        replay(commits, start, i).1.len() == i,
    decreases i,
{
    reveal_with_fuel(replay, 2);
    if i > 0 {
        lemma_replay_unfold(commits, start, (i - 1) as nat);
    }
}

/// Checks the shape of a proof, then replays the transcript: observes each
/// layer's commitment and draws its challenge, checks the proof of work,
/// and draws the query indices. A proof of the wrong shape leaves the
/// transcript as it was, and nothing is drawn after a witness that fails.
pub fn verify_shape_and_sample_challenges(
    config: &FriConfig<ExtensionMmcs<BaseMmcs>>,
    proof: &FriProof,
    challenger: &mut Challenger,
) -> (r: Result<FriChallenges, FriError>)
    ensures
        !proof_shape_ok(config.num_queries, config.log_blowup, config.proof_of_work_bits, *proof)
            ==> r == Err::<FriChallenges, FriError>(FriError::MalformedInput) && final(challenger)@
            == old(challenger)@,
        proof_shape_ok(config.num_queries, config.log_blowup, config.proof_of_work_bits, *proof)
            ==> ({
            let n = proof.commit_phase_commits@.len();
            let run = replay(proof.commit_phase_commits@, old(challenger)@, n);
            let checked = run.0.after_witness(config.proof_of_work_bits as nat, proof.pow_witness);
            let drawn = draw_indices_spec(
                checked,
                (n + config.log_blowup) as nat,
                config.num_queries as nat,
            );
            &&& r is Ok <==> run.0.accepts(config.proof_of_work_bits as nat, proof.pow_witness)
            &&& r is Err ==> r == Err::<FriChallenges, FriError>(FriError::InsufficientWork)
                && final(challenger)@ == checked
            &&& r matches Ok(ch) ==> ch.betas@ == run.1 && ch.query_indices@ == drawn.1
                && final(challenger)@ == drawn.0
        }),
        r matches Ok(ch) ==> {
            &&& ch.betas@.len() == proof.commit_phase_commits@.len()
            &&& ch.query_indices@.len() == config.num_queries
            &&& forall|q: int|
                0 <= q < ch.query_indices@.len() ==> #[trigger] ch.query_indices@[q] < pow2(
                    (proof.commit_phase_commits@.len() + config.log_blowup) as nat,
                )
        },
{
    if !check_proof_shape(config, proof) {
        return Err(FriError::MalformedInput);
    }
    let ghost start = challenger@;
    let log_max_height = proof.commit_phase_commits.len() + config.log_blowup;
    let mut betas: Vec<Ext3> = Vec::new();
    let mut i: usize = 0;
    proof {
        lemma_replay_unfold(proof.commit_phase_commits@, start, 0);
        assert(betas@ =~= Seq::<Ext3>::empty());
    }
    while i < proof.commit_phase_commits.len()
        invariant
            i <= proof.commit_phase_commits@.len(),
            betas@.len() == i,
            replay(proof.commit_phase_commits@, start, i as nat) == (challenger@, betas@),
        decreases proof.commit_phase_commits@.len() - i,
    {
        proof {
            lemma_replay_unfold(proof.commit_phase_commits@, start, i as nat);
        }
        challenger.observe(&proof.commit_phase_commits[i]);
        betas.push(challenger.sample());
        i += 1;
    }
    if !challenger.check_witness(config.proof_of_work_bits, proof.pow_witness) {
        return Err(FriError::InsufficientWork);
    }
    let query_indices = draw_indices(challenger, log_max_height, config.num_queries);
    Ok(FriChallenges { query_indices, betas })
}

/// The challenges and the values that the verifier holds fit the proof:
/// there is a challenge for every layer, and for every query an index below
/// the tallest height and a value, or none, for every height.
pub open spec fn challenges_fit(
    log_blowup: usize,
    proof: FriProof,
    betas: Seq<Ext3>,
    query_indices: Seq<usize>,
    reduced_openings: Seq<Vec<Option<Ext3>>>,
) -> bool {
    let log_max_height = proof.commit_phase_commits@.len() + log_blowup;
    &&& betas.len() == proof.commit_phase_commits@.len()
    &&& query_indices.len() == proof.query_proofs@.len()
    &&& reduced_openings.len() == proof.query_proofs@.len()
    &&& forall|q: int|
        0 <= q < proof.query_proofs@.len() ==> #[trigger] query_fits(
            query_indices,
            reduced_openings,
            log_max_height as nat,
            q,
        )
}

/// Query `q` has an index below the tallest height and a value, or none,
/// for every height.
pub open spec fn query_fits(
    query_indices: Seq<usize>,
    reduced_openings: Seq<Vec<Option<Ext3>>>,
    log_max_height: nat,
    q: int,
) -> bool {
    &&& query_indices[q] < pow2(log_max_height)
    &&& reduced_openings[q]@.len() == log_max_height + 1
}

/// What the verifier makes of the first `q` queries.
pub open spec fn queries_spec(
    proof: FriProof,
    betas: Seq<Ext3>,
    query_indices: Seq<usize>,
    reduced_openings: Seq<Vec<Option<Ext3>>>,
    log_max_height: nat,
    q: nat,
) -> Result<(), FriError>
    decreases q,
{
    if q == 0 {
        Ok(())
    } else {
        match queries_spec(proof, betas, query_indices, reduced_openings, log_max_height, (q - 1) as nat) {
            Err(e) => Err(e),
            Ok(()) => match query_spec(
                proof.commit_phase_commits@,
                proof.query_proofs@[q - 1].commit_phase_openings@,
                betas,
                reduced_openings[q - 1]@,
                query_indices[q - 1] as nat,
                log_max_height,
                proof.commit_phase_commits@.len(),
            ) {
                Err(e) => Err(e),
                Ok(v) => if v.canon() == proof.final_poly.canon() {
                    Ok(())
                } else {
                    Err(FriError::InconsistentFold)
                },
            },
        }
    }
}

/// What the verifier makes of a proof under given challenges.
pub open spec fn verify_challenges_spec(
    num_queries: usize,
    log_blowup: usize,
    pow_bits: usize,
    proof: FriProof,
    betas: Seq<Ext3>,
    query_indices: Seq<usize>,
    reduced_openings: Seq<Vec<Option<Ext3>>>,
) -> Result<(), FriError> {
    if !proof_shape_ok(num_queries, log_blowup, pow_bits, proof) || !challenges_fit(
        log_blowup,
        proof,
        betas,
        query_indices,
        reduced_openings,
    ) {
        Err(FriError::MalformedInput)
    } else {
        queries_spec(
            proof,
            betas,
            query_indices,
            reduced_openings,
            (proof.commit_phase_commits@.len() + log_blowup) as nat,
            proof.query_proofs@.len(),
        )
    }
}

/// Checks that the challenges and the verifier's values fit the proof.
pub fn check_challenges_fit(
    log_blowup: usize,
    proof: &FriProof,
    challenges: &FriChallenges,
    reduced_openings: &Vec<Vec<Option<Ext3>>>,
) -> (r: bool)
    requires
        proof.commit_phase_commits@.len() + log_blowup <= MAX_LOG_HEIGHT,
    ensures
        r == challenges_fit(
            log_blowup,
            *proof,
            challenges.betas@,
            challenges.query_indices@,
            reduced_openings@,
        ),
{
    let log_max_height = proof.commit_phase_commits.len() + log_blowup;
    if challenges.betas.len() != proof.commit_phase_commits.len() || challenges.query_indices.len()
        != proof.query_proofs.len() || reduced_openings.len() != proof.query_proofs.len() {
        return false;
    }
    proof {
        vstd::bits::lemma_usize_pow2_no_overflow(log_max_height as nat);
    }
    let bound = pow2_usize(log_max_height);
    let mut q: usize = 0;
    while q < proof.query_proofs.len()
        invariant
            q <= proof.query_proofs@.len(),
            challenges.query_indices@.len() == proof.query_proofs@.len(),
            reduced_openings@.len() == proof.query_proofs@.len(),
            bound == pow2(log_max_height as nat),
            log_max_height <= MAX_LOG_HEIGHT,
            log_max_height == proof.commit_phase_commits@.len() + log_blowup,
            forall|k: int|
                0 <= k < q ==> #[trigger] query_fits(
                    challenges.query_indices@,
                    reduced_openings@,
                    log_max_height as nat,
                    k,
                ),
        decreases proof.query_proofs@.len() - q,
    {
        if challenges.query_indices[q] >= bound || reduced_openings[q].len() != log_max_height + 1 {
            assert(!query_fits(
                challenges.query_indices@,
                reduced_openings@,
                (proof.commit_phase_commits@.len() + log_blowup) as nat,
                q as int,
            ));
            return false;
        }
        q += 1;
    }
    true
}

/// Checks every query of a proof under the given challenges: the openings
/// against the commitments, and the folds against the final value.
pub fn verify_challenges(
    config: &FriConfig<ExtensionMmcs<BaseMmcs>>,
    proof: &FriProof,
    challenges: &FriChallenges,
    reduced_openings: &Vec<Vec<Option<Ext3>>>,
) -> (r: Result<(), FriError>)
    ensures
        r == verify_challenges_spec(
            config.num_queries,
            config.log_blowup,
            config.proof_of_work_bits,
            *proof,
            challenges.betas@,
            challenges.query_indices@,
            reduced_openings@,
        ),
{
    if !check_proof_shape(config, proof) {
        return Err(FriError::MalformedInput);
    }
    if !check_challenges_fit(config.log_blowup, proof, challenges, reduced_openings) {
        return Err(FriError::MalformedInput);
    }
    let log_max_height = proof.commit_phase_commits.len() + config.log_blowup;
    let mut q: usize = 0;
    while q < proof.query_proofs.len()
        invariant
            proof_shape_ok(config.num_queries, config.log_blowup, config.proof_of_work_bits, *proof),
            challenges_fit(
                config.log_blowup,
                *proof,
                challenges.betas@,
                challenges.query_indices@,
                reduced_openings@,
            ),
            log_max_height == proof.commit_phase_commits@.len() + config.log_blowup,
            q <= proof.query_proofs@.len(),
            queries_spec(
                *proof,
                challenges.betas@,
                challenges.query_indices@,
                reduced_openings@,
                log_max_height as nat,
                q as nat,
            ) == Ok::<(), FriError>(()),
        decreases proof.query_proofs@.len() - q,
    {
        let ghost failed_at = (q + 1) as nat;
        assert(query_fits(
            challenges.query_indices@,
            reduced_openings@,
            log_max_height as nat,
            q as int,
        ));
        let outcome = verify_query(
            config,
            &proof.commit_phase_commits,
            &proof.query_proofs[q],
            &challenges.betas,
            &reduced_openings[q],
            challenges.query_indices[q],
            log_max_height,
        );
        match outcome {
            Err(e) => {
                proof {
                    lemma_queries_stay_failed(
                        *proof,
                        challenges.betas@,
                        challenges.query_indices@,
                        reduced_openings@,
                        log_max_height as nat,
                        failed_at,
                        proof.query_proofs@.len(),
                    );
                }
                return Err(e);
            },
            Ok(v) => {
                if !v.same(proof.final_poly) {
                    proof {
                        lemma_queries_stay_failed(
                            *proof,
                            challenges.betas@,
                            challenges.query_indices@,
                            reduced_openings@,
                            log_max_height as nat,
                            failed_at,
                            proof.query_proofs@.len(),
                        );
                    }
                    return Err(FriError::InconsistentFold);
                }
            },
        }
        q += 1;
    }
    Ok(())
}

/// Once the verifier has turned a query down it turns the proof down.
pub proof fn lemma_queries_stay_failed(
    proof: FriProof,
    betas: Seq<Ext3>,
    query_indices: Seq<usize>,
    reduced_openings: Seq<Vec<Option<Ext3>>>,
    log_max_height: nat,
    q: nat,
    n: nat,
)
    requires
        q <= n,
        queries_spec(proof, betas, query_indices, reduced_openings, log_max_height, q) is Err,
    ensures
        queries_spec(proof, betas, query_indices, reduced_openings, log_max_height, n) == queries_spec(
            proof,
            betas,
            query_indices,
            reduced_openings,
            log_max_height,
            q,
        ),
    decreases n - q,
{
    if q < n {
        lemma_queries_stay_failed(
            proof,
            betas,
            query_indices,
            reduced_openings,
            log_max_height,
            q,
            (n - 1) as nat,
        );
    }
}

/// The values that the verifier holds have the shape that the proof asks
/// for: for every query a value, or none, for every height, and a value
/// for the tallest.
pub open spec fn openings_shape_ok(
    log_blowup: usize,
    proof: FriProof,
    reduced_openings: Seq<Vec<Option<Ext3>>>,
) -> bool {
    let log_max_height = proof.commit_phase_commits@.len() + log_blowup;
    &&& reduced_openings.len() == proof.query_proofs@.len()
    &&& forall|q: int|
        0 <= q < reduced_openings.len() ==> (#[trigger] reduced_openings[q])@.len() == log_max_height
            + 1 && reduced_openings[q]@[log_max_height] is Some
}

/// Checks the shape of the values that the verifier holds.
pub fn check_openings_shape(
    log_blowup: usize,
    proof: &FriProof,
    reduced_openings: &Vec<Vec<Option<Ext3>>>,
) -> (r: bool)
    requires
        proof.commit_phase_commits@.len() + log_blowup <= MAX_LOG_HEIGHT,
    ensures
        r == openings_shape_ok(log_blowup, *proof, reduced_openings@),
{
    let log_max_height = proof.commit_phase_commits.len() + log_blowup;
    if reduced_openings.len() != proof.query_proofs.len() {
        return false;
    }
    let mut q: usize = 0;
    while q < reduced_openings.len()
        invariant
            q <= reduced_openings@.len(),
            log_max_height == proof.commit_phase_commits@.len() + log_blowup,
            log_max_height <= MAX_LOG_HEIGHT,
            forall|k: int|
                0 <= k < q ==> (#[trigger] reduced_openings@[k])@.len() == log_max_height + 1
                    && reduced_openings@[k]@[log_max_height as int] is Some,
        decreases reduced_openings@.len() - q,
    {
        if reduced_openings[q].len() != log_max_height + 1 {
            return false;
        }
        if reduced_openings[q][log_max_height].is_none() {
            return false;
        }
        q += 1;
    }
    true
}

/// The proof and the values that the verifier holds have the shape that
/// the parameters ask for.
pub open spec fn verify_shape_ok(
    num_queries: usize,
    log_blowup: usize,
    pow_bits: usize,
    proof: FriProof,
    reduced_openings: Seq<Vec<Option<Ext3>>>,
) -> bool {
    proof_shape_ok(num_queries, log_blowup, pow_bits, proof) && openings_shape_ok(
        log_blowup,
        proof,
        reduced_openings,
    )
}

/// What the verifier makes of a proof on a transcript: a proof or values
/// of the wrong shape are malformed; else the transcript takes in the
/// commitments and gives the challenges, the witness is checked, the
/// transcript gives the indices, and every query is checked under these
/// challenges.
pub open spec fn verify_spec(
    num_queries: usize,
    log_blowup: usize,
    pow_bits: usize,
    proof: FriProof,
    start: Transcript,
    reduced_openings: Seq<Vec<Option<Ext3>>>,
) -> Result<(), FriError> {
    let n = proof.commit_phase_commits@.len();
    let run = replay(proof.commit_phase_commits@, start, n);
    let drawn = draw_indices_spec(
        run.0.after_witness(pow_bits as nat, proof.pow_witness),
        (n + log_blowup) as nat,
        num_queries as nat,
    );
    if !verify_shape_ok(num_queries, log_blowup, pow_bits, proof, reduced_openings) {
        Err(FriError::MalformedInput)
    } else if !run.0.accepts(pow_bits as nat, proof.pow_witness) {
        Err(FriError::InsufficientWork)
    } else {
        verify_challenges_spec(
            num_queries,
            log_blowup,
            pow_bits,
            proof,
            run.1,
            drawn.1,
            reduced_openings,
        )
    }
}

/// What the verifier leaves of the transcript: nothing is touched for a
/// proof or values of the wrong shape, nothing is drawn after a witness
/// that fails, and else the indices are the last that is drawn.
pub open spec fn verify_end(
    num_queries: usize,
    log_blowup: usize,
    pow_bits: usize,
    proof: FriProof,
    start: Transcript,
    reduced_openings: Seq<Vec<Option<Ext3>>>,
) -> Transcript {
    let n = proof.commit_phase_commits@.len();
    let run = replay(proof.commit_phase_commits@, start, n);
    let checked = run.0.after_witness(pow_bits as nat, proof.pow_witness);
    if !verify_shape_ok(num_queries, log_blowup, pow_bits, proof, reduced_openings) {
        start
    } else if !run.0.accepts(pow_bits as nat, proof.pow_witness) {
        checked
    } else {
        draw_indices_spec(checked, (n + log_blowup) as nat, num_queries as nat).0
    }
}

/// Verifies a proof: turns a proof or values of the wrong shape down
/// before the transcript is touched, replays the transcript for the
/// challenges, then checks every query under them.
pub fn verify(
    config: &FriConfig<ExtensionMmcs<BaseMmcs>>,
    proof: &FriProof,
    challenger: &mut Challenger,
    reduced_openings: &Vec<Vec<Option<Ext3>>>,
) -> (r: Result<(), FriError>)
    ensures
        r == verify_spec(
            config.num_queries,
            config.log_blowup,
            config.proof_of_work_bits,
            *proof,
            old(challenger)@,
            reduced_openings@,
        ),
        final(challenger)@ == verify_end(
            config.num_queries,
            config.log_blowup,
            config.proof_of_work_bits,
            *proof,
            old(challenger)@,
            reduced_openings@,
        ),
        r == Err::<(), FriError>(FriError::MalformedInput) <==> !verify_shape_ok(
            config.num_queries,
            config.log_blowup,
            config.proof_of_work_bits,
            *proof,
            reduced_openings@,
        ),
        r matches Err(e) ==> e != FriError::MalformedWitness,
{
    if !check_proof_shape(config, proof) {
        return Err(FriError::MalformedInput);
    }
    if !check_openings_shape(config.log_blowup, proof, reduced_openings) {
        return Err(FriError::MalformedInput);
    }
    let challenges = match verify_shape_and_sample_challenges(config, proof, challenger) {
        Ok(ch) => ch,
        Err(e) => {
            return Err(e);
        },
    };
    let r = verify_challenges(config, proof, &challenges, reduced_openings);
    proof {
        let log_max_height = (proof.commit_phase_commits@.len() + config.log_blowup) as nat;
        lemma_verifier_errors(
            *proof,
            challenges.betas@,
            challenges.query_indices@,
            reduced_openings@,
            log_max_height,
            proof.query_proofs@.len(),
        );
        lemma_queries_well_formed(
            *proof,
            challenges.betas@,
            challenges.query_indices@,
            reduced_openings@,
            log_max_height,
            proof.query_proofs@.len(),
        );
        assert(challenges_fit(
            config.log_blowup,
            *proof,
            challenges.betas@,
            challenges.query_indices@,
            reduced_openings@,
        )) by {
            assert forall|q: int| 0 <= q < proof.query_proofs@.len() implies #[trigger] query_fits(
                challenges.query_indices@,
                reduced_openings@,
                log_max_height,
                q,
            ) by {
                assert(reduced_openings@[q]@.len() == log_max_height + 1);
            }
        }
    }
    r
}

/// Where the verifier holds a value of the tallest height for every query,
/// no query is malformed.
pub proof fn lemma_queries_well_formed(
    proof: FriProof,
    betas: Seq<Ext3>,
    query_indices: Seq<usize>,
    reduced_openings: Seq<Vec<Option<Ext3>>>,
    log_max_height: nat,
    q: nat,
)
    requires
        q <= reduced_openings.len(),
        forall|k: int|
            0 <= k < reduced_openings.len() ==> (#[trigger] reduced_openings[k])@[log_max_height as int]
                is Some,
    ensures
        queries_spec(proof, betas, query_indices, reduced_openings, log_max_height, q) != Err::<
            (),
            FriError,
        >(FriError::MalformedInput),
    decreases q,
{
    if q > 0 {
        lemma_queries_well_formed(
            proof,
            betas,
            query_indices,
            reduced_openings,
            log_max_height,
            (q - 1) as nat,
        );
        assert(reduced_openings[q - 1]@[log_max_height as int] is Some);
        lemma_query_well_formed(
            proof.commit_phase_commits@,
            proof.query_proofs@[q - 1].commit_phase_openings@,
            betas,
            reduced_openings[q - 1]@,
            query_indices[q - 1] as nat,
            log_max_height,
            proof.commit_phase_commits@.len(),
        );
    }
}

/// A query that starts from a value is not malformed.
pub proof fn lemma_query_well_formed(
    commits: Seq<Commitment>,
    steps: Seq<CommitPhaseProofStep>,
    betas: Seq<Ext3>,
    reduced: Seq<Option<Ext3>>,
    index: nat,
    log_max_height: nat,
    i: nat,
)
    requires
        reduced[log_max_height as int] is Some,
    ensures
        query_spec(commits, steps, betas, reduced, index, log_max_height, i) != Err::<Ext3, FriError>(
            FriError::MalformedInput,
        ),
    decreases i,
{
    if i > 0 {
        lemma_query_well_formed(commits, steps, betas, reduced, index, log_max_height, (i - 1) as nat);
        lemma_query_step(commits, steps, betas, reduced, index, log_max_height, (i - 1) as nat);
    } else {
        lemma_query_start(commits, steps, betas, reduced, index, log_max_height);
    }
}

/// The verifier gives only the verifier's reasons.
pub proof fn lemma_verifier_errors(
    proof: FriProof,
    betas: Seq<Ext3>,
    query_indices: Seq<usize>,
    reduced_openings: Seq<Vec<Option<Ext3>>>,
    log_max_height: nat,
    q: nat,
)
    ensures
        queries_spec(proof, betas, query_indices, reduced_openings, log_max_height, q) matches Err(e)
            ==> e != FriError::MalformedWitness,
    decreases q,
{
    if q > 0 {
        lemma_verifier_errors(
            proof,
            betas,
            query_indices,
            reduced_openings,
            log_max_height,
            (q - 1) as nat,
        );
        lemma_query_errors(
            proof.commit_phase_commits@,
            proof.query_proofs@[q - 1].commit_phase_openings@,
            betas,
            reduced_openings[q - 1]@,
            query_indices[q - 1] as nat,
            log_max_height,
            proof.commit_phase_commits@.len(),
        );
    }
}

/// A query fails only for want of a value or for an opening.
pub proof fn lemma_query_errors(
    commits: Seq<Commitment>,
    steps: Seq<CommitPhaseProofStep>,
    betas: Seq<Ext3>,
    reduced: Seq<Option<Ext3>>,
    index: nat,
    log_max_height: nat,
    i: nat,
)
    ensures
        query_spec(commits, steps, betas, reduced, index, log_max_height, i) matches Err(e) ==> e
            == FriError::MalformedInput || e == FriError::OpeningProofInvalid,
    decreases i,
{
    if i > 0 {
        lemma_query_errors(commits, steps, betas, reduced, index, log_max_height, (i - 1) as nat);
        lemma_query_step(commits, steps, betas, reduced, index, log_max_height, (i - 1) as nat);
    } else {
        lemma_query_start(commits, steps, betas, reduced, index, log_max_height);
    }
}

/// The way a low-degree test folds its layers and takes in further
/// vectors on the way.
pub trait FriFolder {
    /// The matrices that can be folded.
    spec fn foldable(m: RowMajorMatrix<Ext3>) -> bool;

    /// The rows that can be folded: their index and the exponent of the
    /// height of their layer.
    spec fn row_foldable(index: nat, log_height: nat) -> bool;

    /// A layer of rows of two, folded to one column.
    spec fn fold_matrix_spec(values: Seq<Ext3>, beta: Ext3) -> Seq<Ext3>;

    /// One row of a layer, folded.
    spec fn fold_row_spec(index: nat, log_height: nat, lo: Ext3, hi: Ext3, beta: Ext3) -> Ext3;

    /// Folds along each row, returning a single column.
    fn fold_matrix(m: &RowMajorMatrix<Ext3>, beta: Ext3) -> (r: Vec<Ext3>)
        requires
            Self::foldable(*m),
        ensures
            r@ == Self::fold_matrix_spec(m.values@, beta),
    ;

    /// Folds one row, as `fold_matrix` folds it within its layer.
    fn fold_row(index: usize, log_height: usize, evals: &[Ext3; 2], beta: Ext3) -> (r: Ext3)
        requires
            Self::row_foldable(index as nat, log_height as nat),
        ensures
            r == Self::fold_row_spec(index as nat, log_height as nat, evals@[0], evals@[1], beta),
    ;

    /// Adds a further vector to a layer.
    fn combine_vec(&self, current: &mut Vec<Ext3>, new: &Vec<Ext3>)
        requires
            new@.len() == old(current)@.len(),
        ensures
            final(current)@ == combine_spec(old(current)@, Some(*new)),
    ;

    /// Adds the entry of a further vector to the entry of a layer.
    fn combine_row(&self, current: &mut Ext3, new: Ext3, index: usize, log_height: usize)
        ensures
            *final(current) == old(current).plus_spec(new),
    ;
}

/// The folding of the low-degree test on circle domains.
#[derive(Clone, Copy, Default, Debug)]
pub struct CircleFriFolder;

impl FriFolder for CircleFriFolder {
    open spec fn foldable(m: RowMajorMatrix<Ext3>) -> bool {
        &&& m.wf()
        &&& m.width == 2
        &&& is_power_of_two(m.height_spec())
        &&& log2_spec(m.height_spec()) + 2 < crate::domain::CIRCLE_TWO_ADICITY
    }

    open spec fn row_foldable(index: nat, log_height: nat) -> bool {
        log_height < MAX_LOG_HEIGHT && index < pow2(log_height)
    }

    open spec fn fold_matrix_spec(values: Seq<Ext3>, beta: Ext3) -> Seq<Ext3> {
        fold_spec(values, beta, univariate_twiddles_spec(values.len() / 2))
    }

    open spec fn fold_row_spec(index: nat, log_height: nat, lo: Ext3, hi: Ext3, beta: Ext3) -> Ext3 {
        self::fold_row_spec(index, log_height, lo, hi, beta)
    }

    fn fold_matrix(m: &RowMajorMatrix<Ext3>, beta: Ext3) -> (r: Vec<Ext3>) {
        fold_univariate(m, beta)
    }

    fn fold_row(index: usize, log_height: usize, evals: &[Ext3; 2], beta: Ext3) -> (r: Ext3) {
        self::fold_row(index, log_height, evals[0], evals[1], beta)
    }

    fn combine_vec(&self, current: &mut Vec<Ext3>, new: &Vec<Ext3>) {
        let mut out: Vec<Ext3> = Vec::new();
        let mut i: usize = 0;
        while i < new.len()
            invariant
                new@.len() == current@.len(),
                *current == *old(current),
                i <= new@.len(),
                out@.len() == i,
                forall|k: int| 0 <= k < i ==> out@[k] == current@[k].plus_spec(new@[k]),
            decreases new@.len() - i,
        {
            out.push(current[i].plus(new[i]));
            i += 1;
        }
        proof {
            assert(out@ =~= combine_spec(current@, Some(*new)));
        }
        *current = out;
    }

    fn combine_row(&self, current: &mut Ext3, new: Ext3, index: usize, log_height: usize) {
        *current = current.plus(new);
    }
}

} // verus!
