//! A STARK proving core over the Mersenne-31 circle group: field arithmetic,
//! circle domains, FRI folding and querying, batch commitments over extension
//! fields, and the polynomial commitment scheme that ties them together.

pub mod field;
pub mod mersenne31;
pub mod extension;
pub mod complex;
pub mod util;
pub mod folding;
pub mod matrix;
pub mod domain;
pub mod mmcs;
pub mod extension_mmcs;
pub mod challenger;
pub mod fri;
pub mod constraint_consumer;
pub mod permuted;
pub mod symmetric;
pub mod baby_bear;
pub mod poseidon2;
pub mod baby_bear_poseidon2;
pub mod mersenne31_poseidon2;
pub mod round_numbers;
pub mod mds;
pub mod deep_quotient;
pub mod cfft;
pub mod pcs;
pub mod opening;
pub mod commit;
pub mod poseidon_air;
pub mod completeness;
pub mod field_laws;
