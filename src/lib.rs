//! The arithmetization and verification kernel of a proof system over the
//! Goldilocks field: gates and their witness generators, cross-table lookups,
//! the Fiat-Shamir transcript, and the inference of the FRI values that a
//! compressed proof leaves out.
pub mod algebra;
pub mod all_stark;
pub mod biguint;
pub mod challenger;
pub mod circuit;
pub mod cross_table_lookup;
pub mod field;
pub mod fri;
pub mod generator;
pub mod keccak256_mini;
pub mod low_degree_interpolation;
pub mod plonk_proof;
pub mod witness;
