//! A finite-domain constraint propagation engine.
//!
//! Variables range over `i32` values; each one's possible values form a
//! `Domain` in a lattice ordered by meet. Constraints (equality, ordering,
//! sum and product) narrow the domains held in a `Subst` until a fixpoint or a
//! contradiction, which is reported with the deduction trace that led to it.
pub mod constraint;
pub mod domain;
pub mod error;
pub mod lattice;
pub mod ops;
pub mod properties;
pub mod report;
pub mod subst;
pub mod term;
