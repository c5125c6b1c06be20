//! Single operations within a run.
//!
//! For each operation a lemma says how a run goes on from a position that
//! holds the operation, on a machine whose operand stack has the operands of
//! the operation on top of any `rest`. Stacks are written bottom first.
use vstd::prelude::*;
use crate::bitwise::bitwise_result;
use crate::bitwise::BitwiseOp;
use crate::errors::ExecutionError;
use crate::felt::Felt;
use crate::operation::Operation;
use crate::processor::done;
use crate::processor::flag;
use crate::processor::grown_trace;
use crate::processor::high_limb;
use crate::processor::is_binary;
use crate::processor::is_u32;
use crate::processor::low_limb;
use crate::processor::restack;
use crate::processor::run_from;
use crate::processor::step;
use crate::processor::MachineState;
use crate::processor::Outcome;

verus! {

/// A run that the error `e` stopped in state `s`.
pub open spec fn stopped(s: MachineState, e: ExecutionError) -> Outcome {
    Outcome { state: s, error: Some(e) }
}

/// The state after a bitwise operation on `a` and `b`, which were on top of
/// `rest`: the result is on the stack and the trace has grown by the rows of
/// the operation.
pub open spec fn after_bitwise(
    s: MachineState,
    rest: Seq<Felt>,
    op: BitwiseOp,
    a: Felt,
    b: Felt,
) -> MachineState {
    MachineState {
        stack: rest.push(Felt::of_int(bitwise_result(op, a.as_int(), b.as_int()) as int)),
        advice: s.advice,
        trace: grown_trace(s.trace, op, a.as_int(), b.as_int()),
    }
}

/// Behind the last operation a run is over.
pub proof fn lemma_finish(s: MachineState, ops: Seq<Operation>)
    ensures
        run_from(s, ops, ops.len() as int) == done(s),
{
    reveal(run_from);
}

/// `Noop` leaves the machine as it is.
pub proof fn lemma_noop(s: MachineState, ops: Seq<Operation>, at: int)
    requires
        0 <= at < ops.len(),
        ops[at] == Operation::Noop,
    ensures
        run_from(s, ops, at) == run_from(s, ops, at + 1),
{
    reveal(step);
    reveal(run_from);
}

/// `Assert` pops a one.
pub proof fn lemma_assert(
    s: MachineState,
    ops: Seq<Operation>,
    at: int,
    rest: Seq<Felt>,
    a: Felt,
    err_code: Felt,
)
    requires
        0 <= at < ops.len(),
        ops[at] == Operation::Assert(err_code),
        s.stack == rest.push(a),
        a.as_int() == 1,
    ensures
        run_from(s, ops, at) == run_from(restack(s, rest), ops, at + 1),
{
    reveal(step);
    reveal(run_from);
    assert(s.stack.subrange(0, s.stack.len() - 1) =~= rest);
    let next = restack(s, rest);
    assert(step(s, ops[at]) matches Ok(t) && t.stack =~= next.stack);
}

/// `Assert` fails on a value other than one.
pub proof fn lemma_assert_fails(
    s: MachineState,
    ops: Seq<Operation>,
    at: int,
    rest: Seq<Felt>,
    a: Felt,
    err_code: Felt,
)
    requires
        0 <= at < ops.len(),
        ops[at] == Operation::Assert(err_code),
        s.stack == rest.push(a),
        a.as_int() != 1,
    ensures
        run_from(s, ops, at) == stopped(s, ExecutionError::FailedAssertion(err_code)),
{
    reveal(step);
    reveal(run_from);
}

/// `Add` replaces two values by their sum.
pub proof fn lemma_add(
    s: MachineState,
    ops: Seq<Operation>,
    at: int,
    rest: Seq<Felt>,
    a: Felt,
    b: Felt,
)
    requires
        0 <= at < ops.len(),
        ops[at] == Operation::Add,
        s.stack == rest.push(a).push(b),
    ensures
        run_from(s, ops, at) == run_from(restack(s, rest.push(a.plus(b))), ops, at + 1),
{
    reveal(step);
    reveal(run_from);
    assert(s.stack.subrange(0, s.stack.len() - 2) =~= rest);
    let next = restack(s, rest.push(a.plus(b)));
    assert(step(s, ops[at]) matches Ok(t) && t.stack =~= next.stack);
}

/// `Neg` replaces a value by its additive inverse.
pub proof fn lemma_neg(s: MachineState, ops: Seq<Operation>, at: int, rest: Seq<Felt>, a: Felt)
    requires
        0 <= at < ops.len(),
        ops[at] == Operation::Neg,
        s.stack == rest.push(a),
    ensures
        run_from(s, ops, at) == run_from(restack(s, rest.push(a.neg())), ops, at + 1),
{
    reveal(step);
    reveal(run_from);
    assert(s.stack.subrange(0, s.stack.len() - 1) =~= rest);
    let next = restack(s, rest.push(a.neg()));
    assert(step(s, ops[at]) matches Ok(t) && t.stack =~= next.stack);
}

/// `Mul` replaces two values by their product.
pub proof fn lemma_mul(
    s: MachineState,
    ops: Seq<Operation>,
    at: int,
    rest: Seq<Felt>,
    a: Felt,
    b: Felt,
)
    requires
        0 <= at < ops.len(),
        ops[at] == Operation::Mul,
        s.stack == rest.push(a).push(b),
    ensures
        run_from(s, ops, at) == run_from(restack(s, rest.push(a.times(b))), ops, at + 1),
{
    reveal(step);
    reveal(run_from);
    assert(s.stack.subrange(0, s.stack.len() - 2) =~= rest);
    let next = restack(s, rest.push(a.times(b)));
    assert(step(s, ops[at]) matches Ok(t) && t.stack =~= next.stack);
}

/// `Incr` adds one to a value.
pub proof fn lemma_incr(s: MachineState, ops: Seq<Operation>, at: int, rest: Seq<Felt>, a: Felt)
    requires
        0 <= at < ops.len(),
        ops[at] == Operation::Incr,
        s.stack == rest.push(a),
    ensures
        run_from(s, ops, at) == run_from(
            restack(s, rest.push(a.plus(Felt::of_int(1)))),
            ops,
            at + 1,
        ),
{
    reveal(step);
    reveal(run_from);
    assert(s.stack.subrange(0, s.stack.len() - 1) =~= rest);
    let next = restack(s, rest.push(a.plus(Felt::of_int(1))));
    assert(step(s, ops[at]) matches Ok(t) && t.stack =~= next.stack);
}

/// `And` replaces two binary values by their conjunction.
pub proof fn lemma_and(
    s: MachineState,
    ops: Seq<Operation>,
    at: int,
    rest: Seq<Felt>,
    a: Felt,
    b: Felt,
)
    requires
        0 <= at < ops.len(),
        ops[at] == Operation::And,
        s.stack == rest.push(a).push(b),
        is_binary(a),
        is_binary(b),
    ensures
        run_from(s, ops, at) == run_from(
            restack(s, rest.push(flag(a.as_int() == 1 && b.as_int() == 1))),
            ops,
            at + 1,
        ),
{
    reveal(step);
    reveal(run_from);
    assert(s.stack.subrange(0, s.stack.len() - 2) =~= rest);
    let next = restack(s, rest.push(flag(a.as_int() == 1 && b.as_int() == 1)));
    assert(step(s, ops[at]) matches Ok(t) && t.stack =~= next.stack);
}

/// `Not` flips a binary value.
pub proof fn lemma_not(s: MachineState, ops: Seq<Operation>, at: int, rest: Seq<Felt>, a: Felt)
    requires
        0 <= at < ops.len(),
        ops[at] == Operation::Not,
        s.stack == rest.push(a),
        is_binary(a),
    ensures
        run_from(s, ops, at) == run_from(
            restack(s, rest.push(flag(a.as_int() == 0))),
            ops,
            at + 1,
        ),
{
    reveal(step);
    reveal(run_from);
    assert(s.stack.subrange(0, s.stack.len() - 1) =~= rest);
    let next = restack(s, rest.push(flag(a.as_int() == 0)));
    assert(step(s, ops[at]) matches Ok(t) && t.stack =~= next.stack);
}

/// `Eq` replaces two values by the flag of their equality.
pub proof fn lemma_eq(
    s: MachineState,
    ops: Seq<Operation>,
    at: int,
    rest: Seq<Felt>,
    a: Felt,
    b: Felt,
)
    requires
        0 <= at < ops.len(),
        ops[at] == Operation::Eq,
        s.stack == rest.push(a).push(b),
    ensures
        run_from(s, ops, at) == run_from(restack(s, rest.push(flag(a == b))), ops, at + 1),
{
    reveal(step);
    reveal(run_from);
    assert(s.stack.subrange(0, s.stack.len() - 2) =~= rest);
    let next = restack(s, rest.push(flag(a == b)));
    assert(step(s, ops[at]) matches Ok(t) && t.stack =~= next.stack);
}

/// `Eqz` replaces a value by the flag of its being zero.
pub proof fn lemma_eqz(s: MachineState, ops: Seq<Operation>, at: int, rest: Seq<Felt>, a: Felt)
    requires
        0 <= at < ops.len(),
        ops[at] == Operation::Eqz,
        s.stack == rest.push(a),
    ensures
        run_from(s, ops, at) == run_from(
            restack(s, rest.push(flag(a.as_int() == 0))),
            ops,
            at + 1,
        ),
{
    reveal(step);
    reveal(run_from);
    assert(s.stack.subrange(0, s.stack.len() - 1) =~= rest);
    let next = restack(s, rest.push(flag(a.as_int() == 0)));
    assert(step(s, ops[at]) matches Ok(t) && t.stack =~= next.stack);
}

/// `Expacc` does one round of square-and-multiply on the exponent `exp`,
/// the accumulator `acc` and the base `base`.
pub proof fn lemma_expacc(
    s: MachineState,
    ops: Seq<Operation>,
    at: int,
    rest: Seq<Felt>,
    exp: Felt,
    acc: Felt,
    base: Felt,
    bit: Felt,
)
    requires
        0 <= at < ops.len(),
        ops[at] == Operation::Expacc,
        s.stack == rest.push(exp).push(acc).push(base).push(bit),
    ensures
        run_from(s, ops, at) == run_from(
            restack(
                s,
                rest.push(
                    Felt::of_int(exp.as_int() as int / 2),
                ).push(
                    if exp.as_int() % 2 == 1 {
                    acc.times(base)
                } else {
                    acc
                },
                ).push(
                    base.times(base),
                ).push(
                    Felt::of_int(exp.as_int() as int % 2),
                ),
            ),
            ops,
            at + 1,
        ),
{
    reveal(step);
    reveal(run_from);
    assert(s.stack.subrange(0, s.stack.len() - 4) =~= rest);
    let next = restack(
        s,
        rest.push(
            Felt::of_int(exp.as_int() as int / 2),
        ).push(
            if exp.as_int() % 2 == 1 {
                    acc.times(base)
                } else {
                    acc
                },
        ).push(
            base.times(base),
        ).push(
            Felt::of_int(exp.as_int() as int % 2),
        ),
    );
    assert(step(s, ops[at]) matches Ok(t) && t.stack =~= next.stack);
}

/// `U32split` replaces a value by its low limb and, on top of it, its high
/// limb.
pub proof fn lemma_u32split(s: MachineState, ops: Seq<Operation>, at: int, rest: Seq<Felt>, a: Felt)
    requires
        0 <= at < ops.len(),
        ops[at] == Operation::U32split,
        s.stack == rest.push(a),
    ensures
        run_from(s, ops, at) == run_from(
            restack(
                s,
                rest.push(
                    low_limb(a.as_int() as int),
                ).push(
                    high_limb(a.as_int() as int),
                ),
            ),
            ops,
            at + 1,
        ),
{
    reveal(step);
    reveal(run_from);
    assert(s.stack.subrange(0, s.stack.len() - 1) =~= rest);
    let next = restack(
        s,
        rest.push(
            low_limb(a.as_int() as int),
        ).push(
            high_limb(a.as_int() as int),
        ),
    );
    assert(step(s, ops[at]) matches Ok(t) && t.stack =~= next.stack);
}

/// `U32add` replaces two values by the low limb of their sum and, on top
/// of it, the high limb.
pub proof fn lemma_u32add(
    s: MachineState,
    ops: Seq<Operation>,
    at: int,
    rest: Seq<Felt>,
    a: Felt,
    b: Felt,
)
    requires
        0 <= at < ops.len(),
        ops[at] == Operation::U32add,
        s.stack == rest.push(a).push(b),
    ensures
        run_from(s, ops, at) == run_from(
            restack(
                s,
                rest.push(
                    low_limb(a.plus(b).as_int() as int),
                ).push(
                    high_limb(a.plus(b).as_int() as int),
                ),
            ),
            ops,
            at + 1,
        ),
{
    reveal(step);
    reveal(run_from);
    assert(s.stack.subrange(0, s.stack.len() - 2) =~= rest);
    let next = restack(
        s,
        rest.push(
            low_limb(a.plus(b).as_int() as int),
        ).push(
            high_limb(a.plus(b).as_int() as int),
        ),
    );
    assert(step(s, ops[at]) matches Ok(t) && t.stack =~= next.stack);
}

/// `U32sub` replaces two values by the low limb of their difference and,
/// on top of it, the borrow.
pub proof fn lemma_u32sub(
    s: MachineState,
    ops: Seq<Operation>,
    at: int,
    rest: Seq<Felt>,
    a: Felt,
    b: Felt,
)
    requires
        0 <= at < ops.len(),
        ops[at] == Operation::U32sub,
        s.stack == rest.push(a).push(b),
    ensures
        run_from(s, ops, at) == run_from(
            restack(
                s,
                rest.push(
                    low_limb(a.as_int() - b.as_int()),
                ).push(
                    flag(a.as_int() < b.as_int()),
                ),
            ),
            ops,
            at + 1,
        ),
{
    reveal(step);
    reveal(run_from);
    assert(s.stack.subrange(0, s.stack.len() - 2) =~= rest);
    let next = restack(
        s,
        rest.push(
            low_limb(a.as_int() - b.as_int()),
        ).push(
            flag(a.as_int() < b.as_int()),
        ),
    );
    assert(step(s, ops[at]) matches Ok(t) && t.stack =~= next.stack);
}

/// `U32mul` replaces two values by the low limb of their product and, on
/// top of it, the high limb.
pub proof fn lemma_u32mul(
    s: MachineState,
    ops: Seq<Operation>,
    at: int,
    rest: Seq<Felt>,
    a: Felt,
    b: Felt,
)
    requires
        0 <= at < ops.len(),
        ops[at] == Operation::U32mul,
        s.stack == rest.push(a).push(b),
    ensures
        run_from(s, ops, at) == run_from(
            restack(
                s,
                rest.push(
                    low_limb(a.times(b).as_int() as int),
                ).push(
                    high_limb(a.times(b).as_int() as int),
                ),
            ),
            ops,
            at + 1,
        ),
{
    reveal(step);
    reveal(run_from);
    assert(s.stack.subrange(0, s.stack.len() - 2) =~= rest);
    let next = restack(
        s,
        rest.push(
            low_limb(a.times(b).as_int() as int),
        ).push(
            high_limb(a.times(b).as_int() as int),
        ),
    );
    assert(step(s, ops[at]) matches Ok(t) && t.stack =~= next.stack);
}

/// `U32div` replaces two values by their quotient and, on top of it, the
/// remainder.
pub proof fn lemma_u32div(
    s: MachineState,
    ops: Seq<Operation>,
    at: int,
    rest: Seq<Felt>,
    a: Felt,
    b: Felt,
)
    requires
        0 <= at < ops.len(),
        ops[at] == Operation::U32div,
        s.stack == rest.push(a).push(b),
        b.as_int() != 0,
    ensures
        run_from(s, ops, at) == run_from(
            restack(
                s,
                rest.push(
                    Felt::of_int(a.as_int() as int / b.as_int() as int),
                ).push(
                    Felt::of_int(a.as_int() as int % b.as_int() as int),
                ),
            ),
            ops,
            at + 1,
        ),
{
    reveal(step);
    reveal(run_from);
    assert(s.stack.subrange(0, s.stack.len() - 2) =~= rest);
    let next = restack(
        s,
        rest.push(
            Felt::of_int(a.as_int() as int / b.as_int() as int),
        ).push(
            Felt::of_int(a.as_int() as int % b.as_int() as int),
        ),
    );
    assert(step(s, ops[at]) matches Ok(t) && t.stack =~= next.stack);
}

/// `U32div` fails on the divisor zero.
pub proof fn lemma_u32div_fails(
    s: MachineState,
    ops: Seq<Operation>,
    at: int,
    rest: Seq<Felt>,
    a: Felt,
    b: Felt,
)
    requires
        0 <= at < ops.len(),
        ops[at] == Operation::U32div,
        s.stack == rest.push(a).push(b),
        b.as_int() == 0,
    ensures
        run_from(s, ops, at) == stopped(s, ExecutionError::DivideByZero),
{
    reveal(step);
    reveal(run_from);
}

/// `U32assert2` passes two values below `2^32`.
pub proof fn lemma_u32assert2(
    s: MachineState,
    ops: Seq<Operation>,
    at: int,
    rest: Seq<Felt>,
    a: Felt,
    b: Felt,
    err_code: Felt,
)
    requires
        0 <= at < ops.len(),
        ops[at] == Operation::U32assert2(err_code),
        s.stack == rest.push(a).push(b),
        is_u32(a),
        is_u32(b),
    ensures
        run_from(s, ops, at) == run_from(restack(s, rest.push(a).push(b)), ops, at + 1),
{
    reveal(step);
    reveal(run_from);
    assert(s.stack.subrange(0, s.stack.len() - 2) =~= rest);
    let next = restack(s, rest.push(a).push(b));
    assert(step(s, ops[at]) matches Ok(t) && t.stack =~= next.stack);
}

/// `U32assert2` fails on a top value that is not below `2^32`.
pub proof fn lemma_u32assert2_fails_top(
    s: MachineState,
    ops: Seq<Operation>,
    at: int,
    rest: Seq<Felt>,
    a: Felt,
    b: Felt,
    err_code: Felt,
)
    requires
        0 <= at < ops.len(),
        ops[at] == Operation::U32assert2(err_code),
        s.stack == rest.push(a).push(b),
        !is_u32(b),
    ensures
        run_from(s, ops, at) == stopped(s, ExecutionError::NotU32Value(b, err_code)),
{
    reveal(step);
    reveal(run_from);
}

/// `U32assert2` fails on a second value that is not below `2^32`.
pub proof fn lemma_u32assert2_fails_second(
    s: MachineState,
    ops: Seq<Operation>,
    at: int,
    rest: Seq<Felt>,
    a: Felt,
    b: Felt,
    err_code: Felt,
)
    requires
        0 <= at < ops.len(),
        ops[at] == Operation::U32assert2(err_code),
        s.stack == rest.push(a).push(b),
        is_u32(b),
        !is_u32(a),
    ensures
        run_from(s, ops, at) == stopped(s, ExecutionError::NotU32Value(a, err_code)),
{
    reveal(step);
    reveal(run_from);
}

/// `Pad` pushes zero.
pub proof fn lemma_pad(s: MachineState, ops: Seq<Operation>, at: int, rest: Seq<Felt>)
    requires
        0 <= at < ops.len(),
        ops[at] == Operation::Pad,
        s.stack == rest,
    ensures
        run_from(s, ops, at) == run_from(restack(s, rest.push(Felt::of_int(0))), ops, at + 1),
{
    reveal(step);
    reveal(run_from);
    assert(s.stack.subrange(0, s.stack.len() - 0) =~= rest);
    let next = restack(s, rest.push(Felt::of_int(0)));
    assert(step(s, ops[at]) matches Ok(t) && t.stack =~= next.stack);
}

/// `Drop` pops a value.
pub proof fn lemma_drop(s: MachineState, ops: Seq<Operation>, at: int, rest: Seq<Felt>, a: Felt)
    requires
        0 <= at < ops.len(),
        ops[at] == Operation::Drop,
        s.stack == rest.push(a),
    ensures
        run_from(s, ops, at) == run_from(restack(s, rest), ops, at + 1),
{
    reveal(step);
    reveal(run_from);
    assert(s.stack.subrange(0, s.stack.len() - 1) =~= rest);
    let next = restack(s, rest);
    assert(step(s, ops[at]) matches Ok(t) && t.stack =~= next.stack);
}

/// `Dup0` pushes a copy of the top value.
pub proof fn lemma_dup0(s: MachineState, ops: Seq<Operation>, at: int, rest: Seq<Felt>, a: Felt)
    requires
        0 <= at < ops.len(),
        ops[at] == Operation::Dup0,
        s.stack == rest.push(a),
    ensures
        run_from(s, ops, at) == run_from(restack(s, rest.push(a).push(a)), ops, at + 1),
{
    reveal(step);
    reveal(run_from);
    assert(s.stack.subrange(0, s.stack.len() - 1) =~= rest);
    let next = restack(s, rest.push(a).push(a));
    assert(step(s, ops[at]) matches Ok(t) && t.stack =~= next.stack);
}

/// `Dup1` pushes a copy of the second value.
pub proof fn lemma_dup1(
    s: MachineState,
    ops: Seq<Operation>,
    at: int,
    rest: Seq<Felt>,
    a: Felt,
    b: Felt,
)
    requires
        0 <= at < ops.len(),
        ops[at] == Operation::Dup1,
        s.stack == rest.push(a).push(b),
    ensures
        run_from(s, ops, at) == run_from(restack(s, rest.push(a).push(b).push(a)), ops, at + 1),
{
    reveal(step);
    reveal(run_from);
    assert(s.stack.subrange(0, s.stack.len() - 2) =~= rest);
    let next = restack(s, rest.push(a).push(b).push(a));
    assert(step(s, ops[at]) matches Ok(t) && t.stack =~= next.stack);
}

/// `Dup2` pushes a copy of the third value.
pub proof fn lemma_dup2(
    s: MachineState,
    ops: Seq<Operation>,
    at: int,
    rest: Seq<Felt>,
    a: Felt,
    b: Felt,
    c: Felt,
)
    requires
        0 <= at < ops.len(),
        ops[at] == Operation::Dup2,
        s.stack == rest.push(a).push(b).push(c),
    ensures
        run_from(s, ops, at) == run_from(
            restack(s, rest.push(a).push(b).push(c).push(a)),
            ops,
            at + 1,
        ),
{
    reveal(step);
    reveal(run_from);
    assert(s.stack.subrange(0, s.stack.len() - 3) =~= rest);
    let next = restack(s, rest.push(a).push(b).push(c).push(a));
    assert(step(s, ops[at]) matches Ok(t) && t.stack =~= next.stack);
}

/// `Dup3` pushes a copy of the fourth value.
pub proof fn lemma_dup3(
    s: MachineState,
    ops: Seq<Operation>,
    at: int,
    rest: Seq<Felt>,
    a: Felt,
    b: Felt,
    c: Felt,
    d: Felt,
)
    requires
        0 <= at < ops.len(),
        ops[at] == Operation::Dup3,
        s.stack == rest.push(a).push(b).push(c).push(d),
    ensures
        run_from(s, ops, at) == run_from(
            restack(s, rest.push(a).push(b).push(c).push(d).push(a)),
            ops,
            at + 1,
        ),
{
    reveal(step);
    reveal(run_from);
    assert(s.stack.subrange(0, s.stack.len() - 4) =~= rest);
    let next = restack(s, rest.push(a).push(b).push(c).push(d).push(a));
    assert(step(s, ops[at]) matches Ok(t) && t.stack =~= next.stack);
}

/// `Swap` exchanges the two top values.
pub proof fn lemma_swap(
    s: MachineState,
    ops: Seq<Operation>,
    at: int,
    rest: Seq<Felt>,
    a: Felt,
    b: Felt,
)
    requires
        0 <= at < ops.len(),
        ops[at] == Operation::Swap,
        s.stack == rest.push(a).push(b),
    ensures
        run_from(s, ops, at) == run_from(restack(s, rest.push(b).push(a)), ops, at + 1),
{
    reveal(step);
    reveal(run_from);
    assert(s.stack.subrange(0, s.stack.len() - 2) =~= rest);
    let next = restack(s, rest.push(b).push(a));
    assert(step(s, ops[at]) matches Ok(t) && t.stack =~= next.stack);
}

/// `MovUp3` brings the fourth value to the top.
pub proof fn lemma_movup3(
    s: MachineState,
    ops: Seq<Operation>,
    at: int,
    rest: Seq<Felt>,
    a: Felt,
    b: Felt,
    c: Felt,
    d: Felt,
)
    requires
        0 <= at < ops.len(),
        ops[at] == Operation::MovUp3,
        s.stack == rest.push(a).push(b).push(c).push(d),
    ensures
        run_from(s, ops, at) == run_from(
            restack(s, rest.push(b).push(c).push(d).push(a)),
            ops,
            at + 1,
        ),
{
    reveal(step);
    reveal(run_from);
    assert(s.stack.subrange(0, s.stack.len() - 4) =~= rest);
    let next = restack(s, rest.push(b).push(c).push(d).push(a));
    assert(step(s, ops[at]) matches Ok(t) && t.stack =~= next.stack);
}

/// `CSwap` pops a condition and exchanges the two values below it if the
/// condition is one.
pub proof fn lemma_cswap(
    s: MachineState,
    ops: Seq<Operation>,
    at: int,
    rest: Seq<Felt>,
    a: Felt,
    b: Felt,
    c: Felt,
)
    requires
        0 <= at < ops.len(),
        ops[at] == Operation::CSwap,
        s.stack == rest.push(a).push(b).push(c),
        is_binary(c),
    ensures
        run_from(s, ops, at) == run_from(
            restack(
                s,
                rest.push(
                    if c.as_int() == 1 {
                    b
                } else {
                    a
                },
                ).push(
                    if c.as_int() == 1 {
                    a
                } else {
                    b
                },
                ),
            ),
            ops,
            at + 1,
        ),
{
    reveal(step);
    reveal(run_from);
    assert(s.stack.subrange(0, s.stack.len() - 3) =~= rest);
    let next = restack(
        s,
        rest.push(
            if c.as_int() == 1 {
                    b
                } else {
                    a
                },
        ).push(
            if c.as_int() == 1 {
                    a
                } else {
                    b
                },
        ),
    );
    assert(step(s, ops[at]) matches Ok(t) && t.stack =~= next.stack);
}

/// `Push` pushes its constant.
pub proof fn lemma_push(s: MachineState, ops: Seq<Operation>, at: int, rest: Seq<Felt>, value: Felt)
    requires
        0 <= at < ops.len(),
        ops[at] == Operation::Push(value),
        s.stack == rest,
    ensures
        run_from(s, ops, at) == run_from(restack(s, rest.push(value)), ops, at + 1),
{
    reveal(step);
    reveal(run_from);
    assert(s.stack.subrange(0, s.stack.len() - 0) =~= rest);
    let next = restack(s, rest.push(value));
    assert(step(s, ops[at]) matches Ok(t) && t.stack =~= next.stack);
}

/// A bitwise operation replaces two values by its result on them and adds
/// its rows to the trace.
pub proof fn lemma_bitwise(
    s: MachineState,
    ops: Seq<Operation>,
    at: int,
    rest: Seq<Felt>,
    op: BitwiseOp,
    a: Felt,
    b: Felt,
)
    requires
        0 <= at < ops.len(),
        ops[at] == (match op {
            BitwiseOp::And => Operation::U32and,
            BitwiseOp::Or => Operation::U32or,
            BitwiseOp::Xor => Operation::U32xor,
        }),
        s.stack == rest.push(a).push(b),
    ensures
        run_from(s, ops, at) == run_from(after_bitwise(s, rest, op, a, b), ops, at + 1),
{
    reveal(step);
    reveal(run_from);
    assert(s.stack.subrange(0, s.stack.len() - 2) =~= rest);
    let next = after_bitwise(s, rest, op, a, b);
    assert(step(s, ops[at]) matches Ok(t) && t.stack =~= next.stack);
}

/// `AdvPop` moves the top of the advice stack to the operand stack.
pub proof fn lemma_advpop(s: MachineState, ops: Seq<Operation>, at: int)
    requires
        0 <= at < ops.len(),
        ops[at] == Operation::AdvPop,
        s.advice.len() > 0,
    ensures
        run_from(s, ops, at) == run_from(
            MachineState {
                stack: s.stack.push(s.advice.last()),
                advice: s.advice.drop_last(),
                trace: s.trace,
            },
            ops,
            at + 1,
        ),
{
    reveal(step);
    reveal(run_from);
}

/// `AdvPop` fails on an empty advice stack.
pub proof fn lemma_advpop_fails(s: MachineState, ops: Seq<Operation>, at: int)
    requires
        0 <= at < ops.len(),
        ops[at] == Operation::AdvPop,
        s.advice.len() == 0,
    ensures
        run_from(s, ops, at) == stopped(s, ExecutionError::AdviceStackReadFailed),
{
    reveal(step);
    reveal(run_from);
}

} // verus!
