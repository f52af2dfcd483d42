//! A symbolic intermediate representation for quantum-operator expressions:
//! sums and products of scalars, symbolic parameters, and Pauli-operator
//! tensor products, together with a canonicalization procedure that gives
//! every structurally equivalent expression a single deterministic
//! representative.
//!
//! Scalar constants are carried as the bit patterns of IEEE-754 doubles
//! (`u64`), so that the library can state exactly how the canonical order
//! compares them; a front end that works with native floating-point values
//! converts with `f64::to_bits` at the boundary.

pub mod canonical;
pub mod expr;
pub mod laws;
pub mod order;
pub mod pauli;
pub mod symb;
