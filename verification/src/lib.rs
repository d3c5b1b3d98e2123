//! Constant propagation for a register-based three-address-code (TAC)
//! intermediate representation.
//!
//! The pass determines, per basic block, which virtual registers hold a
//! compile-time-known integer, replaces register operands that are provably
//! constant with immediate literals, and resolves conditional jumps whose
//! guard is provably constant into unconditional jumps.

pub mod lattice;
pub mod tac;
pub mod transfer;
pub mod const_prop;
