//! Verified building blocks for succinct proof systems over BN254: a KZG
//! polynomial commitment scheme (setup, commit, single- and multi-point
//! opening, pairing-based verification in three equivalent shapes) and a
//! relaxed-R1CS folding accumulator (lifting a plain system, computing the
//! cross term, and folding two satisfying instances under a challenge).
//!
//! Field and curve arithmetic is arkworks'; every call into it stands
//! behind a trusted wrapper whose contract is modular arithmetic on plain
//! integers (scalars by their canonical residue, curve points by their
//! generator index). Everything above those wrappers is verified: what a
//! commitment and an opening proof carry in the exponent, exactly when
//! each call errs, which congruence each verifier decides, and the laws
//! that honestly produced proofs always verify and that folding preserves
//! satisfiability for every challenge.
pub mod arith;
pub mod errors;
pub mod group;
pub mod kzg;
pub mod lagrange;
pub mod linalg;
pub mod poly;
pub mod qap;
pub mod r1cs;
pub mod relaxed_r1cs;
pub mod scalar;
