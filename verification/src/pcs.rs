//! The polynomial commitment scheme: commits to the low-degree extensions
//! of matrices of values on circle domains, opens them at points outside
//! the domains, and proves the openings with one FRI proof.

use vstd::prelude::*;
use vstd::arithmetic::power2::{pow2, lemma_pow2_pos, lemma_pow2_unfold};
use crate::cfft::{interpolate_spec, lde_defined, same_domain, Cfft};
use crate::challenger::{Challenger, Transcript};
use crate::deep_quotient::{extract_lambda, lambda_spec, v_d_norm_spec, v_d_spec};
use crate::domain::{CircleDomain, CIRCLE_TWO_ADICITY};
use crate::extension::{Ext3, M31Algebra};
use crate::extension_mmcs::{BaseMmcs, BaseProverData, Commitment, ExtensionMmcs};
use crate::field::{Field, Ring};
use crate::folding::{bivariate_twiddles_spec, circle_bitrev_permute, circle_bitrev_permute_spec, fold_bivariate, fold_spec};
use crate::fri::{prove, FriConfig, FriError, FriProof, MAX_LOG_HEIGHT};
use crate::matrix::{MatrixView, RowMajorMatrix};
use crate::mersenne31::M31;
use crate::mmcs::{elements_of, leaf_height, leaves_of, leaves_wf, merkle_root, values_of, Leaf};
use crate::opening::{claims_spec, leaf_view, lemma_open_round_stays_failed, lemma_open_round_unfold, open_matrix_into, open_round_spec, opening_point_spec, states_view, states_wf, HeightState, HeightView};
use crate::util::{is_power_of_two, lemma_log2_unique, log2_spec, log2_strict_usize, pow2_usize};

verus! {

/// The scheme: the blowup of the committed domains, the transform that
/// extends values to them, the commitment scheme for the values, and the
/// parameters of the low-degree test.
pub struct CirclePcs {
    pub log_blowup: usize,
    pub cfft: Cfft,
    pub mmcs: BaseMmcs,
    pub fri_config: FriConfig<ExtensionMmcs<BaseMmcs>>,
}

/// What the prover keeps of a commitment: the domains that the matrices
/// were extended to, and the committed extensions.
pub struct ProverData {
    pub committed_domains: Vec<CircleDomain>,
    pub mmcs_data: BaseProverData,
}

/// A proof of openings: the proof of low degree, and for every query the
/// values of the tested vectors at the queried index, by height.
pub struct PcsProof {
    pub fri_proof: FriProof,
    pub reduced_openings: Vec<Vec<Option<Ext3>>>,
}

impl ProverData {
    /// Every committed matrix has a domain of at least two points and as
    /// many rows as its domain has points.
    pub open spec fn wf(self) -> bool {
        &&& self.mmcs_data.wf()
        &&& self.committed_domains@.len() == self.mmcs_data.leaves().len()
        &&& forall|i: int|
            0 <= i < self.committed_domains@.len() ==> {
                &&& (#[trigger] self.committed_domains@[i]).wf()
                &&& self.committed_domains@[i].log_n >= 1
                &&& self.committed_domains@[i].log_n <= MAX_LOG_HEIGHT
                &&& leaf_height(self.mmcs_data.leaves()[i]) == self.committed_domains@[i].size_spec()
            }
    }
}

/// A matrix of evaluations can be committed: its domain has at least two
/// points and, with the blowup, no more than can be folded, the matrix has
/// a row for every point and a column, and the extension is defined and
/// can be counted.
pub open spec fn evaluation_ok(log_blowup: usize, domain: CircleDomain, evals: RowMajorMatrix<M31>) -> bool {
    &&& 1 <= domain.log_n
    &&& domain.log_n + log_blowup <= MAX_LOG_HEIGHT
    &&& domain.wf()
    &&& evals.wf()
    &&& evals.width > 0
    &&& evals.height_spec() == domain.size_spec()
    &&& pow2((domain.log_n + log_blowup) as nat) * evals.width <= usize::MAX
    &&& lde_defined(domain, CircleDomain::standard_spec((domain.log_n + log_blowup) as usize))
}

/// The evaluations can be committed as one batch.
pub open spec fn evaluations_ok(log_blowup: usize, evaluations: Seq<(CircleDomain, RowMajorMatrix<M31>)>) -> bool {
    &&& evaluations.len() > 0
    &&& forall|i: int|
        0 <= i < evaluations.len() ==> evaluation_ok(
            log_blowup,
            (#[trigger] evaluations[i]).0,
            evaluations[i].1,
        )
}

/// `leaf` holds the extension of `evals` from `domain` to the standard
/// domain that is larger by the blowup.
pub open spec fn leaf_is_lde(leaf: Leaf, log_blowup: usize, domain: CircleDomain, evals: MatrixView<M31>) -> bool {
    let target = CircleDomain::standard_spec((domain.log_n + log_blowup) as usize);
    &&& leaf.1 == evals.width
    &&& leaf.0.len() == target.size_spec() * evals.width
    &&& same_domain(domain, target) ==> leaf.0 == values_of(evals.values)
    &&& !same_domain(domain, target) ==> forall|j: int, c: int|
        0 <= j < target.size_spec() && 0 <= c < evals.width ==> #[trigger] leaf.0[j * evals.width + c]
            == (interpolate_spec::<M31>(domain, evals, target.point_spec(j as nat), c).value
            % crate::mersenne31::P) as u32
}

impl CirclePcs {
    /// The standard domain of `degree` points.
    pub fn natural_domain_for_degree(&self, degree: usize) -> (r: CircleDomain)
        requires
            is_power_of_two(degree as nat),
            log2_spec(degree as nat) < CIRCLE_TWO_ADICITY,
        ensures
            r == CircleDomain::standard_spec(log2_spec(degree as nat) as usize),
            r.wf(),
    {
        CircleDomain::standard(log2_strict_usize(degree))
    }

    /// Checks that a matrix of evaluations can be committed, and extends it.
    pub fn extend(&self, domain: CircleDomain, evals: &RowMajorMatrix<M31>) -> (r: Option<
        (CircleDomain, RowMajorMatrix<M31>),
    >)
        ensures
            r is Some <==> evaluation_ok(self.log_blowup, domain, *evals),
            r matches Some((target, lde)) ==> {
                &&& target == CircleDomain::standard_spec((domain.log_n + self.log_blowup) as usize)
                &&& target.wf()
                &&& 1 <= target.log_n <= MAX_LOG_HEIGHT
                &&& lde.wf()
                &&& lde.width == evals.width
                &&& lde.height_spec() == target.size_spec()
                &&& leaf_is_lde(crate::mmcs::leaf_of(lde), self.log_blowup, domain, evals@)
            },
    {
        if domain.log_n < 1 || domain.log_n > MAX_LOG_HEIGHT || self.log_blowup > MAX_LOG_HEIGHT
            - domain.log_n {
            return None;
        }
        if evals.width == 0 {
            return None;
        }
        let log_n = domain.log_n + self.log_blowup;
        proof {
            vstd::bits::lemma_usize_pow2_no_overflow(domain.log_n as nat);
            vstd::bits::lemma_usize_pow2_no_overflow(log_n as nat);
        }
        let count = evals.values.len();
        if evals.values.len() % evals.width != 0 || evals.height() != pow2_usize(domain.log_n) {
            return None;
        }
        let size = pow2_usize(log_n);
        if size > usize::MAX / evals.width {
            proof {
                assert(size * evals.width > usize::MAX) by (nonlinear_arith)
                    requires
                        size > usize::MAX / evals.width,
                        evals.width > 0,
                {
                    vstd::arithmetic::div_mod::lemma_fundamental_div_mod(
                        usize::MAX as int,
                        evals.width as int,
                    );
                }
            }
            return None;
        }
        proof {
            assert(size * evals.width <= usize::MAX) by (nonlinear_arith)
                requires
                    size <= usize::MAX / evals.width,
                    evals.width > 0,
            {
                vstd::arithmetic::div_mod::lemma_fundamental_div_mod(
                    usize::MAX as int,
                    evals.width as int,
                );
            }
        }
        let target = CircleDomain::standard(log_n);
        match self.cfft.lde(evals, domain, target) {
            None => None,
            Some(lde) => {
                proof {
                    lemma_lde_leaf(lde, self.log_blowup, domain, *evals);
                }
                Some((target, lde))
            },
        }
    }
}

/// What a commitment shows of the evaluations: a domain and a leaf for
/// each, the leaf holding the extension to the domain.
pub open spec fn committed(
    log_blowup: usize,
    evaluations: Seq<(CircleDomain, RowMajorMatrix<M31>)>,
    data: ProverData,
) -> bool {
    &&& data.wf()
    &&& data.committed_domains@.len() == evaluations.len()
    &&& forall|i: int|
        0 <= i < evaluations.len() ==> #[trigger] extension_committed(log_blowup, evaluations, data, i)
}

/// Leaf `i` of a commitment holds the extension of matrix `i`.
pub open spec fn extension_committed(
    log_blowup: usize,
    evaluations: Seq<(CircleDomain, RowMajorMatrix<M31>)>,
    data: ProverData,
    i: int,
) -> bool {
    &&& data.committed_domains@[i] == CircleDomain::standard_spec(
        (evaluations[i].0.log_n + log_blowup) as usize,
    )
    &&& leaf_is_lde(data.mmcs_data.leaves()[i], log_blowup, evaluations[i].0, evaluations[i].1@)
}

impl CirclePcs {
    /// Commits to the low-degree extensions of the given evaluations, as
    /// one batch.
    pub fn commit(&self, evaluations: Vec<(CircleDomain, RowMajorMatrix<M31>)>) -> (r: Result<
        (Commitment, ProverData),
        FriError,
    >)
        ensures
            r is Ok <==> evaluations_ok(self.log_blowup, evaluations@),
            r matches Err(e) ==> e == FriError::MalformedInput,
            r matches Ok((commit, data)) ==> committed(self.log_blowup, evaluations@, data)
                && commit.root@ == merkle_root(data.mmcs_data.leaves()),
    {
        if evaluations.len() == 0 {
            return Err(FriError::MalformedInput);
        }
        let mut committed_domains: Vec<CircleDomain> = Vec::new();
        let mut ldes: Vec<RowMajorMatrix<M31>> = Vec::new();
        let mut i: usize = 0;
        while i < evaluations.len()
            invariant
                i <= evaluations@.len(),
                committed_domains@.len() == i,
                ldes@.len() == i,
                forall|k: int|
                    0 <= k < i ==> evaluation_ok(
                        self.log_blowup,
                        (#[trigger] evaluations@[k]).0,
                        evaluations@[k].1,
                    ),
                forall|k: int| 0 <= k < i ==> #[trigger] extended(self.log_blowup, evaluations@, committed_domains@, ldes@, k),
            decreases evaluations@.len() - i,
        {
            match self.extend(evaluations[i].0, &evaluations[i].1) {
                None => {
                    return Err(FriError::MalformedInput);
                },
                Some((target, lde)) => {
                    proof {
                        lemma_extended_push(
                            self.log_blowup,
                            evaluations@,
                            committed_domains@,
                            ldes@,
                            target,
                            lde,
                        );
                    }
                    committed_domains.push(target);
                    ldes.push(lde);
                },
            }
            i += 1;
        }
        proof {
            assert forall|k: int| 0 <= k < ldes@.len() implies {
                &&& (#[trigger] leaves_of(ldes@)[k]).1 > 0
                &&& leaves_of(ldes@)[k].0.len() % leaves_of(ldes@)[k].1 == 0
                &&& is_power_of_two(leaf_height(leaves_of(ldes@)[k]))
            } by {
                assert(extended(self.log_blowup, evaluations@, committed_domains@, ldes@, k));
                lemma_log2_unique(
                    pow2(committed_domains@[k].log_n as nat),
                    committed_domains@[k].log_n as nat,
                );
            }
        }
        let ghost shown = ldes@;
        let (commit, mmcs_data) = self.mmcs.commit(ldes);
        let data = ProverData { committed_domains, mmcs_data };
        proof {
            assert forall|k: int| 0 <= k < evaluations@.len() implies #[trigger] extension_committed(
                self.log_blowup,
                evaluations@,
                data,
                k,
            ) by {
                assert(extended(self.log_blowup, evaluations@, data.committed_domains@, shown, k));
            }
            assert forall|k: int| 0 <= k < data.committed_domains@.len() implies {
                &&& (#[trigger] data.committed_domains@[k]).wf()
                &&& data.committed_domains@[k].log_n >= 1
                &&& data.committed_domains@[k].log_n <= MAX_LOG_HEIGHT
                &&& leaf_height(data.mmcs_data.leaves()[k]) == data.committed_domains@[k].size_spec()
            } by {
                assert(extended(self.log_blowup, evaluations@, data.committed_domains@, shown, k));
            }
        }
        Ok((commit, data))
    }

    /// The committed values of matrix `idx`, which are its values on the
    /// domain it was extended to.
    pub fn get_evaluations_on_domain(&self, data: &ProverData, idx: usize, domain: CircleDomain) -> (r:
        RowMajorMatrix<M31>)
        requires
            data.wf(),
            idx < data.committed_domains@.len(),
            same_domain(domain, data.committed_domains@[idx as int]),
        ensures
            r.values@ == elements_of(data.mmcs_data.leaves()[idx as int].0),
            r.width == data.mmcs_data.leaves()[idx as int].1,
            r.height_spec() == domain.size_spec(),
    {
        let mats = self.mmcs.get_matrices(&data.mmcs_data);
        let mat = &mats[idx];
        RowMajorMatrix { values: crate::util::copy_vec(&mat.values), width: mat.width }
    }
}

/// Matrix `k` has been extended: its domain and its extension stand at
/// position `k`.
pub open spec fn extended(
    log_blowup: usize,
    evaluations: Seq<(CircleDomain, RowMajorMatrix<M31>)>,
    domains: Seq<CircleDomain>,
    ldes: Seq<RowMajorMatrix<M31>>,
    k: int,
) -> bool {
    let target = domains[k];
    let lde = ldes[k];
    &&& target == CircleDomain::standard_spec((evaluations[k].0.log_n + log_blowup) as usize)
    &&& target.wf()
    &&& 1 <= target.log_n <= MAX_LOG_HEIGHT
    &&& lde.wf()
    &&& lde.width > 0
    &&& lde.height_spec() == target.size_spec()
    &&& leaf_is_lde(crate::mmcs::leaf_of(lde), log_blowup, evaluations[k].0, evaluations[k].1@)
}

/// The matrices extended so far stay extended when one is added.
pub proof fn lemma_extended_push(
    log_blowup: usize,
    evaluations: Seq<(CircleDomain, RowMajorMatrix<M31>)>,
    domains: Seq<CircleDomain>,
    ldes: Seq<RowMajorMatrix<M31>>,
    target: CircleDomain,
    lde: RowMajorMatrix<M31>,
)
    requires
        domains.len() == ldes.len(),
        forall|k: int| 0 <= k < domains.len() ==> #[trigger] extended(log_blowup, evaluations, domains, ldes, k),
        extended(log_blowup, evaluations, domains.push(target), ldes.push(lde), domains.len() as int),
    ensures
        forall|k: int|
            0 <= k < domains.len() + 1 ==> #[trigger] extended(
                log_blowup,
                evaluations,
                domains.push(target),
                ldes.push(lde),
                k,
            ),
{
    assert forall|k: int| 0 <= k < domains.len() + 1 implies #[trigger] extended(
        log_blowup,
        evaluations,
        domains.push(target),
        ldes.push(lde),
        k,
    ) by {
        if k < domains.len() {
            assert(extended(log_blowup, evaluations, domains, ldes, k));
        }
    }
}

/// An extension, seen as a leaf, is the extension.
pub proof fn lemma_lde_leaf(
    lde: RowMajorMatrix<M31>,
    log_blowup: usize,
    domain: CircleDomain,
    evals: RowMajorMatrix<M31>,
)
    requires
        ({
            let target = CircleDomain::standard_spec((domain.log_n + log_blowup) as usize);
            &&& lde.width == evals.width
            &&& lde.width > 0
            &&& lde.wf()
            &&& lde.height_spec() == target.size_spec()
            &&& same_domain(domain, target) ==> lde.values@ == evals.values@
            &&& !same_domain(domain, target) ==> forall|j: int, c: int|
                0 <= j < target.size_spec() && 0 <= c < evals.width ==> #[trigger] lde.entry(j, c)
                    == interpolate_spec(domain, evals@, target.point_spec(j as nat), c)
        }),
    ensures
        leaf_is_lde(crate::mmcs::leaf_of(lde), log_blowup, domain, evals@),
{
    let target = CircleDomain::standard_spec((domain.log_n + log_blowup) as usize);
    let w = lde.width as int;
    let n = lde.values@.len() as int;
    vstd::arithmetic::div_mod::lemma_fundamental_div_mod(n, w);
    assert(target.size_spec() * w == w * target.size_spec()) by (nonlinear_arith);
    let leaf = crate::mmcs::leaf_of(lde);
    if !same_domain(domain, target) {
        assert forall|j: int, c: int| 0 <= j < target.size_spec() && 0 <= c < evals.width implies #[trigger] leaf.0[j
            * evals.width + c] == (interpolate_spec::<M31>(
            domain,
            evals@,
            target.point_spec(j as nat),
            c,
        ).value % crate::mersenne31::P) as u32 by {
            lde.lemma_entry_in_bounds(j, c);
            assert(lde.entry(j, c) == interpolate_spec(domain, evals@, target.point_spec(j as nat), c));
        }
    }
}

/// The claims of matrix `m` of a round are the values of its columns at
/// the points asked for.
pub open spec fn claims_match(
    claims: Seq<Vec<Vec<Ext3>>>,
    data: ProverData,
    points_for_mats: Seq<Vec<Ext3>>,
    m: int,
) -> bool {
    &&& claims[m]@.len() == points_for_mats[m]@.len()
    &&& forall|p: int|
        0 <= p < points_for_mats[m]@.len() ==> (#[trigger] claims[m]@[p])@ == claims_spec(
            data.committed_domains@[m],
            leaf_view(data.mmcs_data.leaves()[m]),
            opening_point_spec(data.committed_domains@[m], points_for_mats[m]@[p]).unwrap(),
        )
}

/// What the openings of a round make of the accumulators: nothing, if the
/// points are not given matrix by matrix.
pub open spec fn round_spec(
    states: Seq<HeightView>,
    data: ProverData,
    points_for_mats: Seq<Vec<Ext3>>,
    mu: Ext3,
) -> Option<Seq<HeightView>> {
    if points_for_mats.len() != data.committed_domains@.len() {
        None
    } else {
        open_round_spec(
            states,
            data.committed_domains@,
            data.mmcs_data.leaves(),
            points_for_mats,
            mu,
            points_for_mats.len(),
        )
    }
}

/// The number of heights that accumulators are kept for.
pub const NUM_HEIGHTS: usize = 29;

impl CirclePcs {
    /// Opens every matrix of a round at its points and adds the openings
    /// to the accumulators.
    pub fn open_round(
        &self,
        states: &mut Vec<HeightState>,
        data: &ProverData,
        points_for_mats: &Vec<Vec<Ext3>>,
        mu: Ext3,
    ) -> (r: Option<Vec<Vec<Vec<Ext3>>>>)
        requires
            data.wf(),
            old(states)@.len() == NUM_HEIGHTS,
            states_wf(states_view(old(states)@)),
        ensures
            final(states)@.len() == NUM_HEIGHTS,
            r is Some <==> round_spec(states_view(old(states)@), *data, points_for_mats@, mu) is Some,
            r matches Some(claims) ==> {
                &&& Some(states_view(final(states)@)) == round_spec(
                    states_view(old(states)@),
                    *data,
                    points_for_mats@,
                    mu,
                )
                &&& states_wf(states_view(final(states)@))
                &&& claims@.len() == points_for_mats@.len()
                &&& forall|m: int|
                    0 <= m < claims@.len() ==> #[trigger] claims_match(
                        claims@,
                        *data,
                        points_for_mats@,
                        m,
                    )
            },
    {
        if points_for_mats.len() != data.committed_domains.len() {
            return None;
        }
        let mats = self.mmcs.get_matrices(&data.mmcs_data);
        let ghost start = states_view(states@);
        let ghost domains = data.committed_domains@;
        let ghost leaves = data.mmcs_data.leaves();
        let mut claims: Vec<Vec<Vec<Ext3>>> = Vec::new();
        let mut m: usize = 0;
        proof {
            lemma_open_round_unfold(start, domains, leaves, points_for_mats@, mu, 0);
        }
        while m < mats.len()
            invariant
                data.wf(),
                domains == data.committed_domains@,
                leaves == data.mmcs_data.leaves(),
                start == states_view(old(states)@),
                points_for_mats@.len() == domains.len(),
                mats@.len() == leaves.len(),
                forall|k: int|
                    0 <= k < mats@.len() ==> {
                        &&& (#[trigger] mats@[k]).values@ == elements_of(leaves[k].0)
                        &&& mats@[k].width == leaves[k].1
                    },
                states@.len() == NUM_HEIGHTS,
                states_wf(states_view(states@)),
                m <= mats@.len(),
                claims@.len() == m,
                open_round_spec(start, domains, leaves, points_for_mats@, mu, m as nat) == Some(
                    states_view(states@),
                ),
                forall|k: int| 0 <= k < m ==> #[trigger] claims_match(claims@, *data, points_for_mats@, k),
            decreases mats@.len() - m,
        {
            let domain = data.committed_domains[m];
            let mat = &mats[m];
            proof {
                lemma_open_round_unfold(start, domains, leaves, points_for_mats@, mu, m as nat);
                lemma_leaf_matrix(leaves, m as int, *mat);
            }
            match open_matrix_into(states, domain, mat, &points_for_mats[m], mu) {
                None => {
                    proof {
                        lemma_open_round_stays_failed(
                            start,
                            domains,
                            leaves,
                            points_for_mats@,
                            mu,
                            (m + 1) as nat,
                            points_for_mats@.len(),
                        );
                    }
                    return None;
                },
                Some(c) => {
                    let ghost before = claims@;
                    claims.push(c);
                    proof {
                        assert forall|k: int| 0 <= k < m + 1 implies #[trigger] claims_match(
                            claims@,
                            *data,
                            points_for_mats@,
                            k,
                        ) by {
                            if k < m {
                                assert(claims_match(before, *data, points_for_mats@, k));
                                assert(claims@[k] == before[k]);
                            }
                        }
                    }
                },
            }
            m += 1;
        }
        Some(claims)
    }
}

/// What the openings of the first `r` rounds make of the accumulators.
#[verifier::opaque]
pub open spec fn rounds_spec(
    states: Seq<HeightView>,
    rounds: Seq<(&ProverData, Vec<Vec<Ext3>>)>,
    mu: Ext3,
    r: nat,
) -> Option<Seq<HeightView>>
    decreases r,
{
    if r == 0 {
        Some(states)
    } else {
        match rounds_spec(states, rounds, mu, (r - 1) as nat) {
            None => None,
            Some(before) => round_spec(before, *rounds[r - 1].0, rounds[r - 1].1@, mu),
        }
    }
}

/// What one more round makes of the openings.
pub proof fn lemma_rounds_unfold(
    states: Seq<HeightView>,
    rounds: Seq<(&ProverData, Vec<Vec<Ext3>>)>,
    mu: Ext3,
    r: nat,
)
    ensures
        rounds_spec(states, rounds, mu, 0) == Some(states),
        rounds_spec(states, rounds, mu, r + 1) == match rounds_spec(states, rounds, mu, r) {
            None => None,
            Some(before) => round_spec(before, *rounds[r as int].0, rounds[r as int].1@, mu),
        },
{
    reveal_with_fuel(rounds_spec, 2);
}

/// Once a round has failed to open, the opening has failed.
pub proof fn lemma_rounds_stay_failed(
    states: Seq<HeightView>,
    rounds: Seq<(&ProverData, Vec<Vec<Ext3>>)>,
    mu: Ext3,
    r: nat,
    n: nat,
)
    requires
        r <= n,
        rounds_spec(states, rounds, mu, r) is None,
    ensures
        rounds_spec(states, rounds, mu, n) is None,
    decreases n - r,
{
    if r < n {
        lemma_rounds_stay_failed(states, rounds, mu, r, (n - 1) as nat);
        lemma_rounds_unfold(states, rounds, mu, (n - 1) as nat);
    }
}

/// The accumulators before anything is opened: none is present.
pub open spec fn no_states_spec() -> Seq<HeightView> {
    Seq::new(
        NUM_HEIGHTS as nat,
        |h: int| HeightView { present: false, values: Seq::<Ext3>::empty(), num_reduced: 0 },
    )
}

/// The accumulators before anything is opened.
pub fn no_states() -> (r: Vec<HeightState>)
    ensures
        states_view(r@) == no_states_spec(),
        r@.len() == NUM_HEIGHTS,
        states_wf(states_view(r@)),
{
    let mut out: Vec<HeightState> = Vec::new();
    let mut h: usize = 0;
    while h < NUM_HEIGHTS
        invariant
            h <= NUM_HEIGHTS,
            out@.len() == h,
            forall|k: int|
                0 <= k < h ==> (#[trigger] out@[k])@ == (HeightView {
                    present: false,
                    values: Seq::<Ext3>::empty(),
                    num_reduced: 0,
                }),
        decreases NUM_HEIGHTS - h,
    {
        out.push(
            HeightState {
                present: false,
                acc: crate::opening::Accumulator { values: Vec::new(), num_reduced: 0 },
            },
        );
        h += 1;
    }
    proof {
        assert(states_view(out@) =~= no_states_spec());
    }
    out
}

/// The claims of round `r` are the values of its matrices at its points.
pub open spec fn round_claims_match(
    values: Seq<Vec<Vec<Vec<Ext3>>>>,
    rounds: Seq<(&ProverData, Vec<Vec<Ext3>>)>,
    r: int,
) -> bool {
    &&& values[r]@.len() == rounds[r].1@.len()
    &&& forall|m: int|
        0 <= m < values[r]@.len() ==> #[trigger] claims_match(values[r]@, *rounds[r].0, rounds[r].1@, m)
}

impl CirclePcs {
    /// Opens every matrix of every round at its points: returns the claims
    /// and the accumulators by height.
    pub fn open_rounds(&self, rounds: &Vec<(&ProverData, Vec<Vec<Ext3>>)>, mu: Ext3) -> (r: Option<
        (Vec<Vec<Vec<Vec<Ext3>>>>, Vec<HeightState>),
    >)
        requires
            forall|i: int| 0 <= i < rounds@.len() ==> (#[trigger] rounds@[i]).0.wf(),
        ensures
            r is Some <==> rounds_spec(no_states_spec(), rounds@, mu, rounds@.len()) is Some,
            r matches Some((values, states)) ==> {
                &&& Some(states_view(states@)) == rounds_spec(
                    no_states_spec(),
                    rounds@,
                    mu,
                    rounds@.len(),
                )
                &&& states@.len() == NUM_HEIGHTS
                &&& states_wf(states_view(states@))
                &&& values@.len() == rounds@.len()
                &&& forall|i: int|
                    0 <= i < rounds@.len() ==> #[trigger] round_claims_match(values@, rounds@, i)
            },
    {
        let mut states = no_states();
        let mut values: Vec<Vec<Vec<Vec<Ext3>>>> = Vec::new();
        let mut i: usize = 0;
        proof {
            lemma_rounds_unfold(no_states_spec(), rounds@, mu, 0);
        }
        while i < rounds.len()
            invariant
                forall|k: int| 0 <= k < rounds@.len() ==> (#[trigger] rounds@[k]).0.wf(),
                states@.len() == NUM_HEIGHTS,
                states_wf(states_view(states@)),
                i <= rounds@.len(),
                values@.len() == i,
                rounds_spec(no_states_spec(), rounds@, mu, i as nat) == Some(states_view(states@)),
                forall|k: int| 0 <= k < i ==> #[trigger] round_claims_match(values@, rounds@, k),
            decreases rounds@.len() - i,
        {
            proof {
                lemma_rounds_unfold(no_states_spec(), rounds@, mu, i as nat);
            }
            match self.open_round(&mut states, rounds[i].0, &rounds[i].1, mu) {
                None => {
                    proof {
                        lemma_rounds_stay_failed(
                            no_states_spec(),
                            rounds@,
                            mu,
                            (i + 1) as nat,
                            rounds@.len(),
                        );
                    }
                    return None;
                },
                Some(c) => {
                    let ghost before = values@;
                    values.push(c);
                    proof {
                        assert forall|k: int| 0 <= k < i + 1 implies #[trigger] round_claims_match(
                            values@,
                            rounds@,
                            k,
                        ) by {
                            if k < i {
                                assert(round_claims_match(before, rounds@, k));
                                assert(values@[k] == before[k]);
                            }
                        }
                    }
                },
            }
            i += 1;
        }
        Some((values, states))
    }
}

/// The accumulator of height `2^h` without its multiple of the weights
/// that are not of low degree.
pub open spec fn corrected_spec(ro: Seq<Ext3>, h: nat, log_blowup: nat) -> Seq<Ext3> {
    let domain = CircleDomain::standard_spec(h as usize);
    let lambda = lambda_spec::<Ext3>(domain, MatrixView { values: ro, width: 1 }, log_blowup, 0);
    Seq::new(
        ro.len(),
        |i: int| ro[i].minus_spec(lambda.times_spec(Ext3::embed_spec(v_d_spec(domain, log_blowup, i as nat)))),
    )
}

/// The vector that the low-degree test is given for height `2^h`: the
/// accumulator corrected, brought into circle bit-reversed order, and
/// folded once with `beta` to take out the second coordinate.
#[verifier::opaque]
pub open spec fn height_input_spec(ro: Seq<Ext3>, h: nat, log_blowup: nat, beta: Ext3) -> Seq<Ext3> {
    fold_spec(
        circle_bitrev_permute_spec(corrected_spec(ro, h, log_blowup)),
        beta,
        bivariate_twiddles_spec(pow2((h - 1) as nat)),
    )
}

/// Whether the weights that are not of low degree have a length on the
/// standard domain of `2^h` points.
pub open spec fn lambda_defined(h: nat, log_blowup: nat) -> bool {
    log_blowup <= h && Ext3::embed_spec(
        v_d_norm_spec(
            CircleDomain::standard_spec(h as usize),
            log_blowup,
            CircleDomain::standard_spec(h as usize).size_spec(),
        ),
    ) != Ext3::zero_spec()
}

/// Makes of the accumulator of height `2^h` the vector that the low-degree
/// test is given.
pub fn fri_input_for_height(ro: &Vec<Ext3>, h: usize, log_blowup: usize, beta: Ext3) -> (r: Option<
    Vec<Ext3>,
>)
    requires
        1 <= h <= MAX_LOG_HEIGHT,
        ro@.len() == pow2(h as nat),
    ensures
        r is Some <==> lambda_defined(h as nat, log_blowup as nat),
        r matches Some(v) ==> v@ == height_input_spec(ro@, h as nat, log_blowup as nat, beta)
            && v@.len() == pow2((h - 1) as nat),
{
    reveal(height_input_spec);
    if log_blowup > h {
        return None;
    }
    let domain = CircleDomain::standard(h);
    let mut column = RowMajorMatrix { values: crate::util::copy_vec(ro), width: 1 };
    let ghost before = column;
    proof {
        assert(column.height_spec() == ro@.len());
        assert(column@ == (MatrixView { values: ro@, width: 1 }));
    }
    match extract_lambda(domain, &mut column, log_blowup) {
        None => {
            return None;
        },
        Some(lambdas) => {
            proof {
                assert forall|i: int| 0 <= i < ro@.len() implies column.values@[i] == corrected_spec(
                    ro@,
                    h as nat,
                    log_blowup as nat,
                )[i] by {
                    assert(column.entry(i, 0) == before.entry(i, 0).minus_spec(
                        lambdas@[0].times_spec(
                            Ext3::embed_spec(v_d_spec(domain, log_blowup as nat, i as nat)),
                        ),
                    ));
                }
                assert(column.values@ =~= corrected_spec(ro@, h as nat, log_blowup as nat));
            }
        },
    }
    proof {
        lemma_log2_unique(pow2(h as nat), h as nat);
        lemma_pow2_unfold(h as nat);
        lemma_pow2_pos((h - 1) as nat);
        lemma_log2_unique(pow2((h - 1) as nat), (h - 1) as nat);
    }
    let permuted = RowMajorMatrix { values: circle_bitrev_permute(&column.values), width: 2 };
    proof {
        assert(permuted.height_spec() == pow2((h - 1) as nat));
        crate::folding::lemma_bivariate_twiddles_len(pow2((h - 1) as nat), (h - 1) as nat);
    }
    Some(fold_bivariate(&permuted, beta))
}

/// `input` is what the low-degree test is given for the accumulators:
/// entry `i` is made of the accumulator of height `2^(i + 1)`, where there
/// is one.
pub open spec fn is_fri_input(
    input: Seq<Option<Vec<Ext3>>>,
    states: Seq<HeightView>,
    log_blowup: nat,
    beta: Ext3,
) -> bool {
    &&& input.len() + 1 == states.len()
    &&& forall|i: int| 0 <= i < input.len() ==> #[trigger] is_fri_input_at(input, states, log_blowup, beta, i)
}

/// Entry `i` of the input is made of the accumulator of height `2^(i + 1)`.
pub open spec fn is_fri_input_at(
    input: Seq<Option<Vec<Ext3>>>,
    states: Seq<HeightView>,
    log_blowup: nat,
    beta: Ext3,
    i: int,
) -> bool {
    if states[i + 1].present {
        &&& input[i] is Some
        &&& input[i].unwrap()@ == height_input_spec(states[i + 1].values, (i + 1) as nat, log_blowup, beta)
        &&& input[i].unwrap()@.len() == pow2(i as nat)
    } else {
        input[i] is None
    }
}

/// Whether every accumulator that is present can be corrected.
pub open spec fn lambdas_defined(states: Seq<HeightView>, log_blowup: nat) -> bool {
    forall|h: int|
        1 <= h < states.len() ==> ((#[trigger] states[h]).present ==> lambda_defined(h as nat, log_blowup))
}

/// Makes of the accumulators the vectors that the low-degree test is given.
pub fn fri_inputs(states: &Vec<HeightState>, log_blowup: usize, beta: Ext3) -> (r: Option<
    Vec<Option<Vec<Ext3>>>,
>)
    requires
        states@.len() == NUM_HEIGHTS,
        states_wf(states_view(states@)),
    ensures
        r is Some <==> lambdas_defined(states_view(states@), log_blowup as nat),
        r matches Some(input) ==> is_fri_input(
            input@,
            states_view(states@),
            log_blowup as nat,
            beta,
        ),
{
    let ghost view = states_view(states@);
    let mut input: Vec<Option<Vec<Ext3>>> = Vec::new();
    let mut i: usize = 0;
    while i + 1 < NUM_HEIGHTS
        invariant
            states@.len() == NUM_HEIGHTS,
            view == states_view(states@),
            states_wf(view),
            i + 1 <= NUM_HEIGHTS,
            input@.len() == i,
            forall|h: int|
                1 <= h < i + 1 ==> ((#[trigger] view[h]).present ==> lambda_defined(
                    h as nat,
                    log_blowup as nat,
                )),
            forall|k: int|
                0 <= k < i ==> #[trigger] is_fri_input_at(input@, view, log_blowup as nat, beta, k),
        decreases NUM_HEIGHTS - i,
    {
        let ghost before = input@;
        assert(view[i + 1] == states@[i + 1]@);
        if states[i + 1].present {
            match fri_input_for_height(&states[i + 1].acc.values, i + 1, log_blowup, beta) {
                None => {
                    assert(!lambda_defined((i + 1) as nat, log_blowup as nat));
                    assert(view[i + 1].present);
                    return None;
                },
                Some(v) => {
                    input.push(Some(v));
                },
            }
        } else {
            input.push(None);
        }
        proof {
            assert(input@[i as int] is Some ==> input@[i as int].unwrap()@.len() == pow2(i as nat));
            assert forall|k: int| 0 <= k < i + 1 implies #[trigger] is_fri_input_at(
                input@,
                view,
                log_blowup as nat,
                beta,
                k,
            ) by {
                if k < i {
                    assert(is_fri_input_at(before, view, log_blowup as nat, beta, k));
                    assert(input@[k] == before[k]);
                }
            }
        }
        i += 1;
    }
    Some(input)
}

/// The value that the verifier is given for height `2^h` at a query: the
/// entry of the tested vector of that height at the index shifted down to
/// it, where there is such a vector.
pub open spec fn reduced_at_spec(
    input: Seq<Option<Vec<Ext3>>>,
    index: nat,
    log_max_height: nat,
    h: int,
) -> Option<Ext3> {
    match input[h] {
        Some(v) => Some(v@[(index / pow2((log_max_height - h) as nat)) as int]),
        None => None,
    }
}

/// The values given for query `q` are those of the tested vectors.
pub open spec fn query_openings_match(
    reduced: Seq<Vec<Option<Ext3>>>,
    input: Seq<Option<Vec<Ext3>>>,
    indices: Seq<usize>,
    log_max_height: nat,
    q: int,
) -> bool {
    &&& reduced[q]@.len() == log_max_height + 1
    &&& forall|h: int|
        0 <= h <= log_max_height ==> #[trigger] reduced[q]@[h] == reduced_at_spec(
            input,
            indices[q] as nat,
            log_max_height,
            h,
        )
}

/// The values given for every query are those of the tested vectors.
pub open spec fn openings_match(
    reduced: Seq<Vec<Option<Ext3>>>,
    input: Seq<Option<Vec<Ext3>>>,
    indices: Seq<usize>,
    log_max_height: nat,
) -> bool {
    &&& reduced.len() == indices.len()
    &&& forall|q: int|
        0 <= q < indices.len() ==> #[trigger] query_openings_match(
            reduced,
            input,
            indices,
            log_max_height,
            q,
        )
}

/// The values of the tested vectors at one queried index, by height.
pub fn reduced_openings_at(input: &Vec<Option<Vec<Ext3>>>, index: usize, log_max_height: usize) -> (r:
    Vec<Option<Ext3>>)
    requires
        crate::fri::input_wf(input@, log_max_height as nat),
        index < pow2(log_max_height as nat),
    ensures
        r@.len() == log_max_height + 1,
        forall|h: int|
            0 <= h <= log_max_height ==> #[trigger] r@[h] == reduced_at_spec(
                input@,
                index as nat,
                log_max_height as nat,
                h,
            ),
{
    let mut out: Vec<Option<Ext3>> = Vec::new();
    let mut h: usize = 0;
    while h <= log_max_height
        invariant
            crate::fri::input_wf(input@, log_max_height as nat),
            index < pow2(log_max_height as nat),
            h <= log_max_height + 1,
            out@.len() == h,
            forall|k: int|
                0 <= k < h ==> #[trigger] out@[k] == reduced_at_spec(
                    input@,
                    index as nat,
                    log_max_height as nat,
                    k,
                ),
        decreases log_max_height + 1 - h,
    {
        match &input[h] {
            None => {
                out.push(None);
            },
            Some(v) => {
                let j = crate::fri::shift_index(index, log_max_height - h, log_max_height);
                out.push(Some(v[j]));
            },
        }
        h += 1;
    }
    out
}

/// The values of the tested vectors at every queried index.
pub fn reduced_query_openings(
    input: &Vec<Option<Vec<Ext3>>>,
    indices: &Vec<usize>,
    log_max_height: usize,
) -> (r: Vec<Vec<Option<Ext3>>>)
    requires
        crate::fri::input_wf(input@, log_max_height as nat),
        forall|q: int| 0 <= q < indices@.len() ==> #[trigger] indices@[q] < pow2(log_max_height as nat),
    ensures
        openings_match(r@, input@, indices@, log_max_height as nat),
{
    let mut out: Vec<Vec<Option<Ext3>>> = Vec::new();
    let mut q: usize = 0;
    while q < indices.len()
        invariant
            crate::fri::input_wf(input@, log_max_height as nat),
            forall|q: int|
                0 <= q < indices@.len() ==> #[trigger] indices@[q] < pow2(log_max_height as nat),
            q <= indices@.len(),
            out@.len() == q,
            forall|k: int|
                0 <= k < q ==> #[trigger] query_openings_match(
                    out@,
                    input@,
                    indices@,
                    log_max_height as nat,
                    k,
                ),
        decreases indices@.len() - q,
    {
        let ghost before = out@;
        out.push(reduced_openings_at(input, indices[q], log_max_height));
        proof {
            assert forall|k: int| 0 <= k < q + 1 implies #[trigger] query_openings_match(
                out@,
                input@,
                indices@,
                log_max_height as nat,
                k,
            ) by {
                if k < q {
                    assert(query_openings_match(before, input@, indices@, log_max_height as nat, k));
                    assert(out@[k] == before[k]);
                }
            }
        }
        q += 1;
    }
    out
}

/// The shape of the accumulators after the openings of the first `r`
/// rounds does not depend on the batching challenge.
pub proof fn lemma_rounds_shape(
    s1: Seq<HeightView>,
    s2: Seq<HeightView>,
    rounds: Seq<(&ProverData, Vec<Vec<Ext3>>)>,
    mu1: Ext3,
    mu2: Ext3,
    r: nat,
)
    requires
        crate::opening::same_shape(s1, s2),
        s1.len() == NUM_HEIGHTS,
        r <= rounds.len(),
        forall|i: int| 0 <= i < rounds.len() ==> (#[trigger] rounds[i]).0.wf(),
    ensures
        rounds_spec(s1, rounds, mu1, r) is Some <==> rounds_spec(s2, rounds, mu2, r) is Some,
        rounds_spec(s1, rounds, mu1, r) matches Some(after1) ==> crate::opening::same_shape(
            after1,
            rounds_spec(s2, rounds, mu2, r).unwrap(),
        ) && after1.len() == NUM_HEIGHTS,
    decreases r,
{
    lemma_rounds_unfold(s1, rounds, mu1, 0);
    lemma_rounds_unfold(s2, rounds, mu2, 0);
    if r > 0 {
        let k = (r - 1) as nat;
        lemma_rounds_shape(s1, s2, rounds, mu1, mu2, k);
        lemma_rounds_unfold(s1, rounds, mu1, k);
        lemma_rounds_unfold(s2, rounds, mu2, k);
        let b1 = rounds_spec(s1, rounds, mu1, k);
        let b2 = rounds_spec(s2, rounds, mu2, k);
        if b1 is Some {
            let data = *rounds[k as int].0;
            let points = rounds[k as int].1@;
            assert(rounds[k as int].0.wf());
            if points.len() == data.committed_domains@.len() {
                crate::opening::lemma_open_round_shape(
                    b1.unwrap(),
                    b2.unwrap(),
                    data.committed_domains@,
                    data.mmcs_data.leaves(),
                    points,
                    mu1,
                    mu2,
                    points.len(),
                );
            }
        }
    }
}

/// The tallest height among the first `n`, from the second on, that has
/// an accumulator.
pub open spec fn tallest_present(states: Seq<HeightView>, n: nat) -> Option<nat>
    decreases n,
{
    if n <= 1 {
        None
    } else if states[n - 1].present {
        Some((n - 1) as nat)
    } else {
        tallest_present(states, (n - 1) as nat)
    }
}

/// The tallest vector of the input of the low-degree test is made of the
/// tallest accumulator.
pub proof fn lemma_tallest_input(
    input: Seq<Option<Vec<Ext3>>>,
    states: Seq<HeightView>,
    log_blowup: nat,
    beta: Ext3,
    n: nat,
)
    requires
        is_fri_input(input, states, log_blowup, beta),
        n <= input.len(),
    ensures
        crate::fri::last_some_spec(input, n) == (match tallest_present(states, n + 1) {
            Some(t) => Some((t - 1) as nat),
            None => None,
        }),
    decreases n,
{
    if n > 0 {
        lemma_tallest_input(input, states, log_blowup, beta, (n - 1) as nat);
        assert(is_fri_input_at(input, states, log_blowup, beta, n - 1));
    }
}

/// The tallest accumulator is not the first and is among those looked at.
pub proof fn lemma_tallest_bound(states: Seq<HeightView>, n: nat)
    ensures
        tallest_present(states, n) matches Some(t) ==> 1 <= t < n && states[t as int].present,
    decreases n,
{
    if n > 1 {
        lemma_tallest_bound(states, (n - 1) as nat);
    }
}

/// The tallest accumulator is the same for families of the same shape.
pub proof fn lemma_tallest_same_shape(a: Seq<HeightView>, b: Seq<HeightView>, n: nat)
    requires
        crate::opening::same_shape(a, b),
        n <= a.len(),
    ensures
        tallest_present(a, n) == tallest_present(b, n),
    decreases n,
{
    if n > 1 {
        lemma_tallest_same_shape(a, b, (n - 1) as nat);
    }
}

/// The openings can be proved: every opening is defined, every
/// accumulator can be corrected, and the tallest accumulator, folded once,
/// is no shorter than the length at which the low-degree test stops and no
/// taller than the machine can count; and the proof of work is within what
/// can be searched for. None of this depends on a challenge.
pub open spec fn open_shape_ok(
    log_blowup: usize,
    fri_log_blowup: usize,
    pow_bits: usize,
    rounds: Seq<(&ProverData, Vec<Vec<Ext3>>)>,
) -> bool {
    &&& rounds_spec(no_states_spec(), rounds, Ext3::zero_spec(), rounds.len()) matches Some(states)
        && lambdas_defined(states, log_blowup as nat) && (tallest_present(
        states,
        states.len(),
    ) matches Some(top) && fri_log_blowup <= top - 1 && crate::fri::height_fits((top - 1) as nat))
    &&& pow_bits <= crate::challenger::MAX_GRINDING_BITS
}

/// What opening makes of vectors `input` that the accumulators have been
/// made into, on a transcript from which both challenges have been drawn:
/// it succeeds exactly where the low-degree test does, else it leaves the
/// transcript as the commit phase left it, and on success the proof is
/// one for the vectors, with the values of the vectors at the indices that
/// the transcript gave.
pub open spec fn open_outcome_with(
    fri_log_blowup: usize,
    pow_bits: usize,
    num_queries: usize,
    input: Seq<Option<Vec<Ext3>>>,
    start: Transcript,
    r: Result<(Vec<Vec<Vec<Vec<Ext3>>>>, PcsProof), FriError>,
    end: Transcript,
) -> bool {
    let h = crate::fri::last_some_spec(input, input.len()).unwrap();
    let n = (h - fri_log_blowup) as nat;
    let run = crate::fri::commit_run(input, h, start, n);
    let last = crate::fri::layer_spec(input, h, run.1, n);
    &&& crate::fri::prove_shape_ok(fri_log_blowup, pow_bits, input)
    &&& r is Ok <==> crate::fri::constant_spec(last, last[0])
    &&& r is Err ==> r == Err::<(Vec<Vec<Vec<Vec<Ext3>>>>, PcsProof), FriError>(
        FriError::MalformedWitness,
    ) && end == run.0
    &&& r matches Ok(out) ==> ({
        let indices = crate::fri::draw_indices_spec(
            run.0.after_witness(pow_bits as nat, out.1.fri_proof.pow_witness),
            h,
            num_queries as nat,
        ).1;
        &&& crate::fri::prove_ok(
            fri_log_blowup,
            pow_bits,
            num_queries,
            input,
            start,
            out.1.fri_proof,
            indices,
            end,
        )
        &&& openings_match(out.1.reduced_openings@, input, indices, h)
    })
}

/// What opening makes of a transcript, where the rounds have the right
/// shape: the batching challenge is drawn first, the openings are added to
/// the accumulators under it, the folding challenge is drawn next, and the
/// low-degree test is run on the vectors that the accumulators are made
/// into under it.
pub open spec fn open_outcome(
    log_blowup: usize,
    fri_log_blowup: usize,
    pow_bits: usize,
    num_queries: usize,
    rounds: Seq<(&ProverData, Vec<Vec<Ext3>>)>,
    start: Transcript,
    r: Result<(Vec<Vec<Vec<Vec<Ext3>>>>, PcsProof), FriError>,
    end: Transcript,
) -> bool {
    let first = start.sample();
    let second = first.1.sample();
    let states = rounds_spec(no_states_spec(), rounds, first.0, rounds.len());
    &&& states is Some
    &&& exists|input: Seq<Option<Vec<Ext3>>>|
        is_fri_input(input, states.unwrap(), log_blowup as nat, second.0) && #[trigger] open_outcome_with(
            fri_log_blowup,
            pow_bits,
            num_queries,
            input,
            second.1,
            r,
            end,
        )
}

impl CirclePcs {
    /// Whether the rounds can be opened. The shape of the accumulators does
    /// not depend on the challenges, so it is found under the challenge
    /// zero.
    pub fn check_open_shape(&self, rounds: &Vec<(&ProverData, Vec<Vec<Ext3>>)>) -> (r: bool)
        requires
            forall|i: int| 0 <= i < rounds@.len() ==> (#[trigger] rounds@[i]).0.wf(),
        ensures
            r == open_shape_ok(
                self.log_blowup,
                self.fri_config.log_blowup,
                self.fri_config.proof_of_work_bits,
                rounds@,
            ),
    {
        let zero = Ext3::zero();
        let (values, states) = match self.open_rounds(rounds, zero) {
            None => {
                return false;
            },
            Some(x) => x,
        };
        let input = match fri_inputs(&states, self.log_blowup, zero) {
            None => {
                return false;
            },
            Some(input) => input,
        };
        proof {
            lemma_shape_of_input(
                input@,
                states_view(states@),
                self.log_blowup as nat,
                zero,
                self.fri_config.log_blowup,
                self.fri_config.proof_of_work_bits,
            );
        }
        let log_max_height = match crate::fri::log_max_height_of(&input) {
            None => {
                return false;
            },
            Some(h) => h,
        };
        self.fri_config.log_blowup <= log_max_height && crate::fri::check_height_fits(log_max_height)
            && self.fri_config.proof_of_work_bits <= crate::challenger::MAX_GRINDING_BITS
    }

    /// Opens the committed matrices of every round at the points asked for:
    /// returns the value of every column at every point, and one proof for
    /// all of them.
    ///
    /// Rounds that cannot be opened are turned down before the transcript
    /// is touched. Then the batching challenge is drawn, every opening is
    /// added to the accumulator of its height, the folding challenge is
    /// drawn, the accumulators are corrected and folded once, and the
    /// low-degree test is run on them.
    pub fn open(&self, rounds: Vec<(&ProverData, Vec<Vec<Ext3>>)>, challenger: &mut Challenger) -> (r:
        Result<(Vec<Vec<Vec<Vec<Ext3>>>>, PcsProof), FriError>)
        requires
            forall|i: int| 0 <= i < rounds@.len() ==> (#[trigger] rounds@[i]).0.wf(),
        ensures
            r matches Ok((values, proof)) ==> {
                &&& values@.len() == rounds@.len()
                &&& forall|i: int|
                    0 <= i < rounds@.len() ==> #[trigger] round_claims_match(values@, rounds@, i)
                &&& proof.reduced_openings@.len() == self.fri_config.num_queries
            },
            !open_shape_ok(
                self.log_blowup,
                self.fri_config.log_blowup,
                self.fri_config.proof_of_work_bits,
                rounds@,
            ) ==> r == Err::<(Vec<Vec<Vec<Vec<Ext3>>>>, PcsProof), FriError>(FriError::MalformedInput)
                && final(challenger)@ == old(challenger)@,
            open_shape_ok(
                self.log_blowup,
                self.fri_config.log_blowup,
                self.fri_config.proof_of_work_bits,
                rounds@,
            ) ==> open_outcome(
                self.log_blowup,
                self.fri_config.log_blowup,
                self.fri_config.proof_of_work_bits,
                self.fri_config.num_queries,
                rounds@,
                old(challenger)@,
                r,
                final(challenger)@,
            ),
    {
        if !self.check_open_shape(&rounds) {
            return Err(FriError::MalformedInput);
        }
        let ghost start = challenger@;
        let mu = challenger.sample();
        proof {
            lemma_rounds_shape(
                no_states_spec(),
                no_states_spec(),
                rounds@,
                mu,
                Ext3::zero_spec(),
                rounds@.len(),
            );
        }
        let (values, states) = match self.open_rounds(&rounds, mu) {
            None => {
                return Err(FriError::MalformedInput);
            },
            Some(x) => x,
        };
        let ghost shape = rounds_spec(no_states_spec(), rounds@, Ext3::zero_spec(), rounds@.len()).unwrap();
        proof {
            lemma_tallest_same_shape(states_view(states@), shape, NUM_HEIGHTS as nat);
            assert(lambdas_defined(states_view(states@), self.log_blowup as nat)) by {
                assert forall|h: int| 1 <= h < shape.len() implies ((#[trigger] shape[h]).present
                    == states_view(states@)[h].present) by {}
            }
        }
        let beta = challenger.sample();
        let input = match fri_inputs(&states, self.log_blowup, beta) {
            None => {
                return Err(FriError::MalformedInput);
            },
            Some(input) => input,
        };
        proof {
            lemma_shape_of_input(
                input@,
                states_view(states@),
                self.log_blowup as nat,
                beta,
                self.fri_config.log_blowup,
                self.fri_config.proof_of_work_bits,
            );
        }
        let (fri_proof, indices) = match prove(&self.fri_config, &input, challenger) {
            Err(e) => {
                proof {
                    let ghost f = start.sample();
                    let ghost sec = f.1.sample();
                    let ghost st = rounds_spec(no_states_spec(), rounds@, f.0, rounds@.len());
                    assert(is_fri_input(input@, st.unwrap(), self.log_blowup as nat, sec.0));
                    assert(open_outcome_with(
                        self.fri_config.log_blowup,
                        self.fri_config.proof_of_work_bits,
                        self.fri_config.num_queries,
                        input@,
                        sec.1,
                        Err::<(Vec<Vec<Vec<Vec<Ext3>>>>, PcsProof), FriError>(e),
                        challenger@,
                    ));
                }
                return Err(e);
            },
            Ok(x) => x,
        };
        let log_max_height = match crate::fri::log_max_height_of(&input) {
            None => {
                return Err(FriError::MalformedInput);
            },
            Some(h) => h,
        };
        let reduced_openings = reduced_query_openings(&input, &indices, log_max_height);
        let proof = PcsProof { fri_proof, reduced_openings };
        proof {
            let ghost f = start.sample();
            let ghost sec = f.1.sample();
            let ghost st = rounds_spec(no_states_spec(), rounds@, f.0, rounds@.len());
            assert(is_fri_input(input@, st.unwrap(), self.log_blowup as nat, sec.0));
            assert(open_outcome_with(
                self.fri_config.log_blowup,
                self.fri_config.proof_of_work_bits,
                self.fri_config.num_queries,
                input@,
                sec.1,
                Ok::<(Vec<Vec<Vec<Vec<Ext3>>>>, PcsProof), FriError>((values, proof)),
                challenger@,
            ));
        }
        Ok((values, proof))
    }
}

/// The vectors made of the accumulators can be proved with exactly where
/// the tallest accumulator, folded once, is no shorter than the length at
/// which the low-degree test stops and no taller than the machine can
/// count, and the proof of work is within what can be searched for.
pub proof fn lemma_shape_of_input(
    input: Seq<Option<Vec<Ext3>>>,
    states: Seq<HeightView>,
    log_blowup: nat,
    beta: Ext3,
    fri_log_blowup: usize,
    pow_bits: usize,
)
    requires
        states.len() == NUM_HEIGHTS,
        is_fri_input(input, states, log_blowup, beta),
    ensures
        crate::fri::input_lengths_ok(input),
        crate::fri::prove_shape_ok(fri_log_blowup, pow_bits, input) <==> ((tallest_present(
            states,
            states.len(),
        ) matches Some(top) && fri_log_blowup <= top - 1 && crate::fri::height_fits((top - 1) as nat))
            && pow_bits <= crate::challenger::MAX_GRINDING_BITS),
{
    lemma_tallest_input(input, states, log_blowup, beta, input.len());
    assert(crate::fri::input_lengths_ok(input)) by {
        assert forall|h: int| 0 <= h < input.len() implies ((#[trigger] input[h]) matches Some(v) ==> h
            <= MAX_LOG_HEIGHT && v@.len() == pow2(h as nat)) by {
            assert(is_fri_input_at(input, states, log_blowup, beta, h));
        }
    }
    lemma_tallest_bound(states, NUM_HEIGHTS as nat);
    assert(input.len() + 1 == NUM_HEIGHTS);
}

/// What the verifier of openings makes of a proof on a transcript: a
/// proof of the wrong shape is malformed; else both challenges are drawn
/// and the low-degree test is checked on what is left of the transcript.
pub open spec fn verify_spec(
    num_queries: usize,
    fri_log_blowup: usize,
    pow_bits: usize,
    proof: PcsProof,
    start: Transcript,
) -> Result<(), FriError> {
    if !crate::fri::verify_shape_ok(
        num_queries,
        fri_log_blowup,
        pow_bits,
        proof.fri_proof,
        proof.reduced_openings@,
    ) {
        Err(FriError::MalformedInput)
    } else {
        crate::fri::verify_spec(
            num_queries,
            fri_log_blowup,
            pow_bits,
            proof.fri_proof,
            start.sample().1.sample().1,
            proof.reduced_openings@,
        )
    }
}

/// What the verifier of openings leaves of the transcript: nothing is
/// touched for a proof of the wrong shape.
pub open spec fn verify_end(
    num_queries: usize,
    fri_log_blowup: usize,
    pow_bits: usize,
    proof: PcsProof,
    start: Transcript,
) -> Transcript {
    if !crate::fri::verify_shape_ok(
        num_queries,
        fri_log_blowup,
        pow_bits,
        proof.fri_proof,
        proof.reduced_openings@,
    ) {
        start
    } else {
        crate::fri::verify_end(
            num_queries,
            fri_log_blowup,
            pow_bits,
            proof.fri_proof,
            start.sample().1.sample().1,
            proof.reduced_openings@,
        )
    }
}

impl CirclePcs {
    /// Verifies a proof of openings: turns a proof of the wrong shape down
    /// before the transcript is touched, then draws the batching and the
    /// folding challenge, replays the transcript of the low-degree test,
    /// and checks every query against the values that the proof gives for
    /// it.
    pub fn verify(
        &self,
        rounds: Vec<(Commitment, Vec<(CircleDomain, Vec<(Ext3, Vec<Ext3>)>)>)>,
        proof: &PcsProof,
        challenger: &mut Challenger,
    ) -> (r: Result<(), FriError>)
        ensures
            r == verify_spec(
                self.fri_config.num_queries,
                self.fri_config.log_blowup,
                self.fri_config.proof_of_work_bits,
                *proof,
                old(challenger)@,
            ),
            final(challenger)@ == verify_end(
                self.fri_config.num_queries,
                self.fri_config.log_blowup,
                self.fri_config.proof_of_work_bits,
                *proof,
                old(challenger)@,
            ),
            r == Err::<(), FriError>(FriError::MalformedInput) <==> !crate::fri::verify_shape_ok(
                self.fri_config.num_queries,
                self.fri_config.log_blowup,
                self.fri_config.proof_of_work_bits,
                proof.fri_proof,
                proof.reduced_openings@,
            ),
            r matches Err(e) ==> e != FriError::MalformedWitness,
    {
        if !crate::fri::check_proof_shape(&self.fri_config, &proof.fri_proof) {
            return Err(FriError::MalformedInput);
        }
        if !crate::fri::check_openings_shape(
            self.fri_config.log_blowup,
            &proof.fri_proof,
            &proof.reduced_openings,
        ) {
            return Err(FriError::MalformedInput);
        }
        let mu = challenger.sample();
        let bivariate_beta = challenger.sample();
        crate::fri::verify(&self.fri_config, &proof.fri_proof, challenger, &proof.reduced_openings)
    }
}

/// A committed matrix, as the commitment scheme gives it back, is the
/// matrix of its leaf, has whole rows and a row for every point.
pub proof fn lemma_leaf_matrix(leaves: Seq<Leaf>, k: int, mat: RowMajorMatrix<M31>)
    requires
        leaves_wf(leaves),
        0 <= k < leaves.len(),
        mat.values@ == elements_of(leaves[k].0),
        mat.width == leaves[k].1,
    ensures
        mat@ == leaf_view(leaves[k]),
        mat.wf(),
        mat.height_spec() == leaf_height(leaves[k]),
{
    reveal(crate::mmcs::leaves_wf);
}

} // verus!
