//! The errors of compilation and of execution.
use vstd::prelude::*;
use crate::felt::Felt;

verus! {

/// Why an instruction could not be compiled. Nothing is emitted for an
/// instruction that fails.
#[derive(Clone, Copy, Debug, PartialEq, Eq, Structural)]
pub enum AssemblyError {
    /// A division or modulo instruction was given the immediate divisor zero.
    DivisionByZero,
    /// An immediate lies outside the range that the instruction admits.
    ParamOutOfBounds { value: u64, min: u64, max: u64 },
}

/// Why a run of the machine stopped. Every failure ends the run.
#[derive(Clone, Copy, Debug, PartialEq, Eq, Structural)]
pub enum ExecutionError {
    /// An operation needed more values than the operand stack holds.
    StackUnderflow,
    /// An `AdvPop` found the advice stack empty.
    AdviceStackReadFailed,
    /// An assertion with the given error code found a value other than one.
    FailedAssertion(Felt),
    /// A range assertion with the given error code found the given value,
    /// which is not below `2^32`.
    NotU32Value(Felt, Felt),
    /// A boolean operation found the given value, which is neither zero nor
    /// one.
    NotBinaryValue(Felt),
    /// A division found the divisor zero.
    DivideByZero,
}

/// Why a trace could not be copied into a fragment. Nothing is copied into
/// a fragment that does not fit.
#[derive(Clone, Copy, Debug, PartialEq, Eq, Structural)]
pub enum TraceError {
    /// The fragment has `found` rows where the trace has `expected`.
    InconsistentLength { expected: usize, found: usize },
    /// The fragment has `found` columns where the trace has `expected`.
    InconsistentWidth { expected: usize, found: usize },
}

} // verus!
