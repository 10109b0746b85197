//! Arithmetic-circuit relations for a zero-knowledge proof pipeline, and the
//! commitment-tree membership scheme one of them checks.
//!
//! The crate is organised bottom-up:
//! - `field`: the scalar field the circuits are arithmetised over;
//! - `cs`: the constraint system, which allocates variables and records
//!   rank-one constraints `left * right = output`;
//! - `crh`: the fixed-input-length compression function, used natively by the
//!   commitment tree and mirrored in-circuit by `gadget`;
//! - `tree`: the fixed-height commitment tree, its membership paths, and the
//!   native path check;
//! - `relation`: the interface every provable relation implements;
//! - `mul_circuit`: the relation "the prover knows `b` with `a * b = c`";
//! - `path_circuit`: the relation "the prover knows a membership path from
//!   `leaf` to `root`";
//! - `lifecycle`: the setup / prove / verify orchestration over any relation.

pub mod crh;
pub mod cs;
pub mod field;
pub mod gadget;
pub mod lifecycle;
pub mod mul_circuit;
pub mod path_circuit;
pub mod relation;
pub mod tree;
