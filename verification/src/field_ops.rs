//! Field instructions that the word instructions lean on.
use vstd::prelude::*;
use crate::felt::Felt;
use crate::operation::Operation;
use crate::span::SpanBuilder;

verus! {

/// The operations that replace an exponent `e` on top of the stack by `2^e`:
/// sixteen cycles. Six rounds of square-and-multiply consume the low six bits
/// of the exponent; the closing assertion fails the run, with error code zero,
/// if any higher bit was set.
pub open spec fn pow2_ops() -> Seq<Operation> {
    seq![
        Operation::Push(Felt::of_int(2)),
        Operation::Pad,
        Operation::Incr,
        Operation::Swap,
        Operation::Pad,
        Operation::Expacc,
        Operation::Expacc,
        Operation::Expacc,
        Operation::Expacc,
        Operation::Expacc,
        Operation::Expacc,
        Operation::Drop,
        Operation::Drop,
        Operation::Swap,
        Operation::Eqz,
        Operation::Assert(Felt::of_int(0)),
    ]
}

/// Appends the operations that replace an exponent on top of the stack by the
/// power of two with that exponent.
pub fn append_pow2_op(span: &mut SpanBuilder)
    ensures
        final(span)@.ops == old(span)@.ops + pow2_ops(),
        final(span)@.decorators == old(span)@.decorators,
{
    let ops = [
        // the base, then the accumulator, which starts at one
        Operation::Push(Felt::new(2)),
        Operation::Pad,
        Operation::Incr,
        // a place for the bit that each round reads off the exponent
        Operation::Swap,
        Operation::Pad,
        Operation::Expacc,
        Operation::Expacc,
        Operation::Expacc,
        Operation::Expacc,
        Operation::Expacc,
        Operation::Expacc,
        // the last bit and the last square are of no use
        Operation::Drop,
        Operation::Drop,
        // what is left of the exponent must be zero
        Operation::Swap,
        Operation::Eqz,
        Operation::Assert(Felt::zero()),
    ];
    assert(ops@ =~= pow2_ops());
    span.push_ops(ops);
}

} // verus!
