//! The transcript from which prover and verifier draw their challenges.

use vstd::prelude::*;
use vstd::arithmetic::power2::pow2;
use crate::extension::Ext3;
use crate::extension_mmcs::Commitment;
use crate::field::Ring;
use crate::mersenne31::M31;
use p3_challenger::{CanObserve, CanSample, CanSampleBits, GrindingChallenger, HashChallenger, SerializingChallenger32};
use p3_field::{BasedVectorSpace, PrimeField32};
use p3_keccak::Keccak256Hash;
use p3_symmetric::MerkleCap;

verus! {

/// The largest number of bits that one draw of an index can have.
pub const MAX_SAMPLE_BITS: usize = 30;

/// The largest number of bits of proof of work. The search for a witness
/// goes through the whole field, so that up to this bound it misses only
/// with negligible probability.
pub const MAX_GRINDING_BITS: usize = 20;

/// A transcript over Keccak-256: it takes in what the prover sends and
/// gives out challenges that depend on all it has taken in.
#[verifier::external_body]
pub struct Challenger {
    inner: SerializingChallenger32<p3_mersenne_31::Mersenne31, HashChallenger<u8, Keccak256Hash, 32>>,
}

impl Challenger {
    /// A transcript that has taken in the given commitments, first to last,
    /// and has not yet hashed anything.
    ///
    /// It holds the bytes of their roots, in order, as what it has taken
    /// in, and nothing ready to give out, so that the first challenge drawn
    /// from it is drawn from all of them. Two transcripts made of the same
    /// commitments in the same order hold the same bytes; a prover and a
    /// verifier start from such a pair.
    pub fn new(observed: &Vec<Commitment>) -> (r: Self)
        ensures
            transcript_input(r) == observed_bytes(observed@, observed@.len()),
            transcript_output(r) == Seq::<u8>::empty(),
            r@ == (Transcript { input: observed_bytes(observed@, observed@.len()), output: Seq::empty() }),
    {
        let mut challenger = Self::from_hasher();
        let mut i: usize = 0;
        while i < observed.len()
            invariant
                i <= observed@.len(),
                transcript_input(challenger) == observed_bytes(observed@, i as nat),
                transcript_output(challenger) == Seq::<u8>::empty(),
            decreases observed@.len() - i,
        {
            challenger.observe(&observed[i]);
            i += 1;
        }
        challenger
    }

    /// Calls `p3_challenger::SerializingChallenger32::from_hasher` with an
    /// empty initial state.
    ///
    /// Claims that the transcript starts with both buffers empty.
    #[verifier::external_body]
    fn from_hasher() -> (r: Self)
        ensures
            transcript_input(r) == Seq::<u8>::empty(),
            transcript_output(r) == Seq::<u8>::empty(),
    {
        Challenger { inner: SerializingChallenger32::from_hasher(vec![], Keccak256Hash {}) }
    }

    /// Calls `p3_challenger::CanObserve::observe` with the commitment as a
    /// Merkle cap of one root.
    ///
    /// Claims that the bytes of the root are added to the end of what the
    /// transcript has taken in, and that what it held ready is dropped.
    #[verifier::external_body]
    pub(crate) fn observe(&mut self, commit: &Commitment)
        ensures
            transcript_input(*final(self)) == transcript_input(*old(self)) + commit.root@,
            transcript_output(*final(self)) == Seq::<u8>::empty(),
    {
        let cap: MerkleCap<p3_mersenne_31::Mersenne31, [u8; 32]> = MerkleCap::new(vec![commit.root]);
        self.inner.observe(cap);
    }

    /// Calls `p3_challenger::CanSample::sample` for an element of the cubic
    /// extension.
    ///
    /// Claims that the element comes in reduced form, and that it and the
    /// buffers after the call depend on the buffers before alone.
    #[verifier::external_body]
    pub(crate) fn sample(&mut self) -> (r: Ext3)
        ensures
            r.canon() == r,
            r == crate::extension::ext3_of(drawn_element(transcript_input(*old(self)), transcript_output(*old(self)))),
            transcript_input(*final(self)) == buffers_after_element(transcript_input(*old(self)), transcript_output(*old(self))).0,
            transcript_output(*final(self)) == buffers_after_element(transcript_input(*old(self)), transcript_output(*old(self))).1,
    {
        let x: p3_field::extension::BinomialExtensionField<p3_mersenne_31::Mersenne31, 3> =
            self.inner.sample();
        let s: &[p3_mersenne_31::Mersenne31] = x.as_basis_coefficients_slice();
        Ext3 {
            c0: M31 { value: s[0].as_canonical_u32() },
            c1: M31 { value: s[1].as_canonical_u32() },
            c2: M31 { value: s[2].as_canonical_u32() },
        }
    }

    /// Calls `p3_challenger::CanSampleBits::sample_bits`, which panics when
    /// two to the power `bits` is not below the order of the field.
    ///
    /// Claims that the result has at most `bits` binary digits, and that
    /// it and the buffers after the call depend on the buffers before and on
    /// `bits` alone.
    #[verifier::external_body]
    pub(crate) fn sample_bits(&mut self, bits: usize) -> (r: usize)
        requires
            bits <= MAX_SAMPLE_BITS,
        ensures
            r < pow2(bits as nat),
            r == drawn_index(transcript_input(*old(self)), transcript_output(*old(self)), bits as nat),
            transcript_input(*final(self)) == buffers_after_index(transcript_input(*old(self)), transcript_output(*old(self)), bits as nat).0,
            transcript_output(*final(self)) == buffers_after_index(transcript_input(*old(self)), transcript_output(*old(self)), bits as nat).1,
    {
        self.inner.sample_bits(bits)
    }

    /// Calls `p3_challenger::GrindingChallenger::grind`, which searches the
    /// field for a witness and panics if there is none.
    ///
    /// Claims that the witness comes in reduced form, that it is one that
    /// `check_witness` accepts on the buffers before the call, and that the
    /// buffers after the call are those after checking it. Which of the
    /// witnesses that pass is returned is left open.
    #[verifier::external_body]
    pub(crate) fn grind(&mut self, bits: usize) -> (r: M31)
        requires
            bits <= MAX_GRINDING_BITS,
        ensures
            r.canon() == r,
            witness_accepted(transcript_input(*old(self)), transcript_output(*old(self)), bits as nat, r.value),
            transcript_input(*final(self)) == buffers_after_witness(transcript_input(*old(self)), transcript_output(*old(self)), bits as nat, r.value).0,
            transcript_output(*final(self)) == buffers_after_witness(transcript_input(*old(self)), transcript_output(*old(self)), bits as nat, r.value).1,
    {
        M31 { value: self.inner.grind(bits).as_canonical_u32() }
    }

    /// Calls `p3_challenger::GrindingChallenger::check_witness`.
    ///
    /// Claims that whether the witness is accepted, and the buffers after
    /// the call, depend on the buffers before, on `bits` and on the witness
    /// alone.
    #[verifier::external_body]
    pub(crate) fn check_witness(&mut self, bits: usize, witness: M31) -> (r: bool)
        requires
            bits <= MAX_GRINDING_BITS,
        ensures
            r == witness_accepted(transcript_input(*old(self)), transcript_output(*old(self)), bits as nat, witness.value),
            transcript_input(*final(self)) == buffers_after_witness(transcript_input(*old(self)), transcript_output(*old(self)), bits as nat, witness.value).0,
            transcript_output(*final(self)) == buffers_after_witness(transcript_input(*old(self)), transcript_output(*old(self)), bits as nat, witness.value).1,
    {
        self.inner.check_witness(bits, p3_mersenne_31::Mersenne31::new(witness.value))
    }
}

/// The bytes that a transcript has taken in and not yet hashed: the input
/// buffer of its `p3_challenger::HashChallenger`.
pub uninterp spec fn transcript_input(c: Challenger) -> Seq<u8>;

/// The bytes that a transcript holds ready to give out: the output buffer
/// of its `p3_challenger::HashChallenger`.
pub uninterp spec fn transcript_output(c: Challenger) -> Seq<u8>;

/// The roots of the first `n` commitments, byte after byte.
pub open spec fn observed_bytes(observed: Seq<Commitment>, n: nat) -> Seq<u8>
    decreases n,
{
    if n == 0 {
        Seq::empty()
    } else {
        observed_bytes(observed, (n - 1) as nat) + observed[n - 1].root@
    }
}

/// The element that `p3_challenger::CanSample::sample` draws from a
/// transcript with the given buffers, as its reduced coefficients.
pub uninterp spec fn drawn_element(input: Seq<u8>, output: Seq<u8>) -> (u32, u32, u32);

/// The buffers that `p3_challenger::CanSample::sample` leaves.
pub uninterp spec fn buffers_after_element(input: Seq<u8>, output: Seq<u8>) -> (Seq<u8>, Seq<u8>);

/// The index that `p3_challenger::CanSampleBits::sample_bits` draws from a
/// transcript with the given buffers.
pub uninterp spec fn drawn_index(input: Seq<u8>, output: Seq<u8>, bits: nat) -> usize;

/// The buffers that `p3_challenger::CanSampleBits::sample_bits` leaves.
pub uninterp spec fn buffers_after_index(input: Seq<u8>, output: Seq<u8>, bits: nat) -> (
    Seq<u8>,
    Seq<u8>,
);

/// Whether `p3_challenger::GrindingChallenger::check_witness` accepts the
/// witness of the given value on a transcript with the given buffers.
pub uninterp spec fn witness_accepted(input: Seq<u8>, output: Seq<u8>, bits: nat, witness: u32) -> bool;

/// The buffers that `p3_challenger::GrindingChallenger::check_witness` leaves.
pub uninterp spec fn buffers_after_witness(
    input: Seq<u8>,
    output: Seq<u8>,
    bits: nat,
    witness: u32,
) -> (Seq<u8>, Seq<u8>);

/// The state of a transcript as a value: what it has taken in and not yet
/// hashed, and what it holds ready to give out.
pub struct Transcript {
    pub input: Seq<u8>,
    pub output: Seq<u8>,
}

impl View for Challenger {
    type V = Transcript;

    open spec fn view(&self) -> Transcript {
        Transcript { input: transcript_input(*self), output: transcript_output(*self) }
    }
}

impl Transcript {
    /// The transcript that has taken in nothing.
    pub open spec fn empty() -> Transcript {
        Transcript { input: Seq::empty(), output: Seq::empty() }
    }

    /// The transcript with the given buffers.
    pub open spec fn of(buffers: (Seq<u8>, Seq<u8>)) -> Transcript {
        Transcript { input: buffers.0, output: buffers.1 }
    }

    /// The transcript after it has taken in a root: the bytes are added to
    /// what it has taken in, and what it held ready is dropped.
    pub open spec fn observe(self, root: Seq<u8>) -> Transcript {
        Transcript { input: self.input + root, output: Seq::empty() }
    }

    /// The element drawn, and the transcript after the draw.
    pub open spec fn sample(self) -> (Ext3, Transcript) {
        (
            crate::extension::ext3_of(drawn_element(self.input, self.output)),
            Self::of(buffers_after_element(self.input, self.output)),
        )
    }

    /// The index of `bits` digits drawn, and the transcript after the draw.
    pub open spec fn sample_bits(self, bits: nat) -> (usize, Transcript) {
        (
            drawn_index(self.input, self.output, bits),
            Self::of(buffers_after_index(self.input, self.output, bits)),
        )
    }

    /// Whether the witness is accepted as proof of work of `bits` bits.
    pub open spec fn accepts(self, bits: nat, witness: M31) -> bool {
        witness_accepted(self.input, self.output, bits, witness.value)
    }

    /// The transcript after the witness has been checked.
    pub open spec fn after_witness(self, bits: nat, witness: M31) -> Transcript {
        Self::of(buffers_after_witness(self.input, self.output, bits, witness.value))
    }
}

} // verus!