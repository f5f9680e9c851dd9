//! The interfaces of polynomial commitment schemes.

use vstd::prelude::*;
use crate::extension::Ext3;
use crate::matrix::RowMajorMatrix;
use crate::mersenne31::M31;

verus! {

/// A polynomial commitment scheme for batches of polynomials over the base
/// field, not necessarily hiding. It says nothing of what a point is; the
/// two traits below do.
pub trait PCS {
    /// The commitment that is sent to the verifier.
    type Commitment;

    /// What the prover keeps of committed polynomials, to open them.
    type ProverData;

    /// The opening argument.
    type Proof;

    type Error;

    fn commit_batches(polynomials: Vec<RowMajorMatrix<M31>>) -> (Self::Commitment, Self::ProverData);

    fn get_committed_value(prover_data: &Self::ProverData, batch: usize, poly: usize, value: usize) -> M31;
}

/// A scheme for polynomials in one variable.
pub trait UnivariatePCS: PCS {
    fn open_batches(points: &Vec<Ext3>, prover_data: &Vec<Self::ProverData>) -> (
        Vec<Vec<Vec<Ext3>>>,
        Self::Proof,
    );

    fn verify_batches(
        commit: &Self::Commitment,
        points: &Vec<Ext3>,
        values: &Vec<Vec<Vec<Ext3>>>,
        proof: &Self::Proof,
    ) -> Result<(), Self::Error>;
}

/// A scheme for polynomials in several variables.
pub trait MultivariatePCS: PCS {
    fn open_batches(points: &Vec<Ext3>, prover_data: &Vec<Self::ProverData>) -> (
        Vec<Vec<Vec<Ext3>>>,
        Self::Proof,
    );

    fn verify_batches(
        commit: &Self::Commitment,
        points: &Vec<Ext3>,
        values: &Vec<Vec<Vec<Ext3>>>,
        proof: &Self::Proof,
    ) -> Result<(), Self::Error>;
}

} // verus!
