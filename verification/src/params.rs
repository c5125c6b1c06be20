//! Immediate operands: their validation and the operations that push them.
use vstd::prelude::*;
use crate::errors::AssemblyError;
use crate::felt::Felt;
use crate::operation::Operation;
use crate::span::SpanBuilder;

verus! {

/// The operations that put the 32-bit constant `value` on the stack: zero
/// and one are made without a push, which is cheaper for the machine.
pub open spec fn push_u32_ops(value: u32) -> Seq<Operation> {
    if value == 0 {
        seq![Operation::Pad]
    } else if value == 1 {
        seq![Operation::Pad, Operation::Incr]
    } else {
        seq![Operation::Push(Felt::of_int(value as int))]
    }
}

/// Accepts `value` if it lies between `min` and `max`, both included.
pub fn validate_param(value: u8, min: u8, max: u8) -> (r: Result<(), AssemblyError>)
    ensures
        min <= value <= max ==> r is Ok,
        !(min <= value <= max) ==> r == Err::<(), AssemblyError>(
            AssemblyError::ParamOutOfBounds {
                value: value as u64,
                min: min as u64,
                max: max as u64,
            },
        ),
{
    if min <= value && value <= max {
        Ok(())
    } else {
        Err(
            AssemblyError::ParamOutOfBounds {
                value: value as u64,
                min: min as u64,
                max: max as u64,
            },
        )
    }
}

/// Appends the operations that put the 32-bit constant `value` on the stack.
pub fn push_u32_value(span: &mut SpanBuilder, value: u32)
    ensures
        final(span)@.ops == old(span)@.ops + push_u32_ops(value),
        final(span)@.decorators == old(span)@.decorators,
{
    if value == 0 {
        span.push_op(Operation::Pad);
        assert(old(span)@.ops.push(Operation::Pad) =~= old(span)@.ops + push_u32_ops(value));
    } else if value == 1 {
        span.push_op(Operation::Pad);
        span.push_op(Operation::Incr);
        assert(old(span)@.ops.push(Operation::Pad).push(Operation::Incr) =~= old(span)@.ops
            + push_u32_ops(value));
    } else {
        let constant = Felt::from(value);
        span.push_op(Operation::Push(constant));
        assert(old(span)@.ops.push(Operation::Push(constant)) =~= old(span)@.ops + push_u32_ops(
            value,
        ));
    }
}

} // verus!
