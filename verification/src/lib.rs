//! Instruction lowering and execution-trace generation for the 32-bit word
//! operations of a stack machine whose runs are proved with STARKs.
//!
//! - [`felt`]: the values of the machine, elements of the prime field with
//!   modulus `2^64 - 2^32 + 1`.
//! - [`operation`], [`advice`]: the operations of the machine and the
//!   requests for nondeterministic hints.
//! - [`span`], [`params`], [`field_ops`], [`u32_ops`]: the compiler of the
//!   32-bit word instructions, which appends operations to a span.
//! - [`bitwise`]: the helper that computes AND, OR and XOR and records the
//!   trace of these computations.
//! - [`processor`]: what the operations do to a machine, in the logic and as
//!   executable code.
//! - [`steps`], [`semantics`]: proofs of what single operations and compiled
//!   instructions compute.
//! - [`verification`]: the entry point of the verification of a proof of
//!   execution.
use vstd::prelude::*;

pub mod advice;
pub mod bitwise;
pub mod errors;
pub mod felt;
pub mod field_ops;
pub mod operation;
pub mod params;
pub mod processor;
pub mod semantics;
pub mod span;
pub mod steps;
pub mod u32_ops;
pub mod verification;

verus! {

/// The largest amount by which a 32-bit shift instruction can shift.
pub const MAX_U32_SHIFT_VALUE: u8 = 31;

/// The largest amount by which a 32-bit rotate instruction can rotate.
pub const MAX_U32_ROTATE_VALUE: u8 = 31;

} // verus!
