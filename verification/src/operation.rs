//! The primitive operations of the machine.
//!
//! Every operation takes one cycle and has a fixed effect on the operand
//! stack; what each does to a machine is defined in [`crate::processor`].
use vstd::prelude::*;
use crate::felt::Felt;

verus! {

/// One atomic operation of the stack machine.
///
/// In the descriptions the top of the stack is written first: `[b, a, ...]`
/// is a stack with `b` on top of `a`. The operations on 32-bit values are
/// meant for operands below `2^32` and do not check them, but for
/// `U32assert2`; what they do to larger operands is said with each.
#[derive(Clone, Copy, Debug, PartialEq, Eq, Structural)]
pub enum Operation {
    /// Leaves the machine as it is.
    Noop,
    /// Pops the top of the stack; the run fails with the given error code
    /// unless the popped value is one.
    Assert(Felt),
    /// `[b, a, ...] -> [a + b, ...]` in the field.
    Add,
    /// `[a, ...] -> [-a, ...]` in the field.
    Neg,
    /// `[b, a, ...] -> [a * b, ...]` in the field.
    Mul,
    /// `[a, ...] -> [a + 1, ...]` in the field.
    Incr,
    /// `[b, a, ...] -> [a and b, ...]`; fails unless both are zero or one.
    And,
    /// `[a, ...] -> [1 - a, ...]`; fails unless `a` is zero or one.
    Not,
    /// `[b, a, ...] -> [1, ...]` if `a == b`, else `[0, ...]`.
    Eq,
    /// `[a, ...] -> [1, ...]` if `a == 0`, else `[0, ...]`.
    Eqz,
    /// One round of square-and-multiply:
    /// `[bit, base, acc, exp, ...] -> [exp mod 2, base^2, acc', exp div 2, ...]`
    /// where `acc'` is `acc * base` if `exp` is odd and `acc` otherwise.
    Expacc,
    /// `[a, ...] -> [hi, lo, ...]`, the high and low 32 bits of `a`.
    U32split,
    /// `[b, a, ...] -> [hi, lo, ...]`, the high and low 32 bits of the sum
    /// of `a` and `b` in the field: for operands below `2^32`, the carry and
    /// the sum modulo `2^32`.
    U32add,
    /// `[b, a, ...] -> [borrow, diff, ...]`, where `diff` is `a - b` modulo
    /// `2^32` and `borrow` is one if `a < b` and zero otherwise, `a` and `b`
    /// taken as integers.
    U32sub,
    /// `[b, a, ...] -> [hi, lo, ...]`, the high and low 32 bits of the
    /// product of `a` and `b` in the field: for operands below `2^32`, those
    /// of their product as integers.
    U32mul,
    /// `[b, a, ...] -> [rem, quot, ...]`, remainder and quotient of `a` by
    /// `b`, both taken as integers; fails if `b` is zero.
    U32div,
    /// `[b, a, ...] -> [a & b, ...]` on the low 32 bits; the bitwise helper
    /// records the computation.
    U32and,
    /// `[b, a, ...] -> [a | b, ...]` on the low 32 bits; the bitwise helper
    /// records the computation.
    U32or,
    /// `[b, a, ...] -> [a ^ b, ...]` on the low 32 bits; the bitwise helper
    /// records the computation.
    U32xor,
    /// Leaves the stack as it is; the run fails with the given error code
    /// unless the two values on top are both below `2^32`.
    U32assert2(Felt),
    /// Pushes zero.
    Pad,
    /// Pops the top of the stack.
    Drop,
    /// Pushes a copy of the top of the stack.
    Dup0,
    /// Pushes a copy of the second value from the top.
    Dup1,
    /// Pushes a copy of the third value from the top.
    Dup2,
    /// Pushes a copy of the fourth value from the top.
    Dup3,
    /// `[b, a, ...] -> [a, b, ...]`.
    Swap,
    /// `[a, b, c, d, ...] -> [d, a, b, c, ...]`.
    MovUp3,
    /// `[c, b, a, ...] -> [a, b, ...]` if `c` is one, `[b, a, ...]` if `c` is
    /// zero; fails otherwise.
    CSwap,
    /// Pushes the given constant.
    Push(Felt),
    /// Pops the top of the advice stack and pushes it onto the operand stack.
    AdvPop,
}

} // verus!
