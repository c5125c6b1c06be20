//! Lowering of the 32-bit word instructions.
//!
//! Each instruction appends a fixed sequence of operations to the span it is
//! given. The sequence depends only on the instruction, its mode and its
//! immediate, never on what is on the stack when it runs. An instruction that
//! fails appends nothing. What the sequences compute is proved in
//! [`crate::semantics`].
use vstd::prelude::*;
use vstd::arithmetic::power2::pow2;
use vstd::bits::lemma_u64_pow2_no_overflow;
use vstd::bits::lemma_u64_shl_is_mul;
use crate::advice::AdviceInjector;
use crate::errors::AssemblyError;
use crate::felt::Felt;
use crate::field_ops::append_pow2_op;
use crate::field_ops::pow2_ops;
use crate::operation::Operation;
use crate::params::push_u32_ops;
use crate::params::push_u32_value;
use crate::params::validate_param;
use crate::span::CodeBlock;
use crate::span::SpanBuilder;
use crate::MAX_U32_ROTATE_VALUE;
use crate::MAX_U32_SHIFT_VALUE;

verus! {

/// What becomes of the limb that does not fit in 32 bits.
#[derive(Clone, Copy, Debug, PartialEq, Eq, Structural)]
pub enum U32OpMode {
    /// The carry, borrow or high limb is discarded.
    Wrapping,
    /// The carry, borrow or high limb stays on the stack, above the result.
    Overflowing,
}

// SEQUENCES
// ================================================================================================

/// The operations that push an immediate, if there is one.
pub open spec fn immediate_ops(imm: Option<u32>) -> Seq<Operation> {
    match imm {
        Some(value) => push_u32_ops(value),
        None => Seq::empty(),
    }
}

/// The 23 operations of `u32testw`: each of the four elements of the top word
/// is split, its high limb compared with zero, and the four results combined.
pub open spec fn u32testw_ops() -> Seq<Operation> {
    seq![
        Operation::Dup3,
        Operation::U32split,
        Operation::Swap,
        Operation::Drop,
        Operation::Eqz,
        Operation::Dup3,
        Operation::U32split,
        Operation::Swap,
        Operation::Drop,
        Operation::Eqz,
        Operation::And,
        Operation::Dup2,
        Operation::U32split,
        Operation::Swap,
        Operation::Drop,
        Operation::Eqz,
        Operation::And,
        Operation::Dup1,
        Operation::U32split,
        Operation::Swap,
        Operation::Drop,
        Operation::Eqz,
        Operation::And,
    ]
}

/// The 6 operations of `u32assertw`: the first two elements of the top word
/// are range-checked, then the other two are brought up and checked, which
/// leaves the word in its order.
pub open spec fn u32assertw_ops(err_code: Felt) -> Seq<Operation> {
    seq![
        Operation::U32assert2(err_code),
        Operation::MovUp3,
        Operation::MovUp3,
        Operation::U32assert2(err_code),
        Operation::MovUp3,
        Operation::MovUp3,
    ]
}

/// The operations of an addition, subtraction or multiplication with base
/// operation `op`: the immediate, the operation, and in wrapping mode the drop
/// of the limb on top.
pub open spec fn arithmetic_ops(op: Operation, op_mode: U32OpMode, imm: Option<u32>) -> Seq<
    Operation,
> {
    immediate_ops(imm).push(op) + match op_mode {
        U32OpMode::Wrapping => seq![Operation::Drop],
        U32OpMode::Overflowing => Seq::empty(),
    }
}

/// The operations that leave remainder and quotient on the stack: the
/// immediate and the division.
pub open spec fn division_ops(imm: Option<u32>) -> Seq<Operation> {
    immediate_ops(imm).push(Operation::U32div)
}

/// The operations of `u32div`: divide, drop the remainder.
pub open spec fn u32div_ops(imm: Option<u32>) -> Seq<Operation> {
    division_ops(imm).push(Operation::Drop)
}

/// The operations of `u32mod`: divide, drop the quotient.
pub open spec fn u32mod_ops(imm: Option<u32>) -> Seq<Operation> {
    division_ops(imm) + seq![Operation::Swap, Operation::Drop]
}

/// The 5 operations of `u32not`: the operand is subtracted from `2^32 - 1`.
pub open spec fn u32not_ops() -> Seq<Operation> {
    seq![
        Operation::Push(Felt::of_int(0xFFFF_FFFF)),
        Operation::U32assert2(Felt::of_int(0)),
        Operation::Swap,
        Operation::U32sub,
        Operation::Drop,
    ]
}

/// The operations that put the power of two of a shift or rotation amount on
/// the stack: nothing to do for the immediate zero, a constant for another
/// immediate, and a computation from the amount on the stack without one.
pub open spec fn pow2_operand_ops(imm: Option<u8>) -> Seq<Operation> {
    match imm {
        Some(amount) => if amount == 0 {
            seq![Operation::Noop]
        } else {
            seq![Operation::Push(Felt::of_int(pow2(amount as nat) as int))]
        },
        None => pow2_ops(),
    }
}

/// The operations of a shift or rotation to the left that combines the two
/// limbs of the product with `tail`; the immediate zero leaves a single no-op.
pub open spec fn shift_ops(imm: Option<u8>, tail: Seq<Operation>) -> Seq<Operation> {
    if imm == Some(0u8) {
        pow2_operand_ops(imm)
    } else {
        pow2_operand_ops(imm) + tail
    }
}

/// The operations of `u32shl`: multiply by the power of two, drop the high
/// limb.
pub open spec fn u32shl_ops(imm: Option<u8>) -> Seq<Operation> {
    shift_ops(imm, seq![Operation::U32mul, Operation::Drop])
}

/// The operations of `u32shr`: divide by the power of two, drop the remainder.
pub open spec fn u32shr_ops(imm: Option<u8>) -> Seq<Operation> {
    shift_ops(imm, seq![Operation::U32div, Operation::Drop])
}

/// The operations of `u32rotl`: multiply by the power of two, add the high
/// limb to the low one.
pub open spec fn u32rotl_ops(imm: Option<u8>) -> Seq<Operation> {
    shift_ops(imm, seq![Operation::U32mul, Operation::Add])
}

/// The operations of `u32rotr`: a rotation to the left by 32 less the amount.
pub open spec fn u32rotr_ops(imm: Option<u8>) -> Seq<Operation> {
    match imm {
        Some(amount) => if amount == 0 {
            seq![Operation::Noop]
        } else {
            seq![
                Operation::Push(Felt::of_int(pow2((32 - amount) as nat) as int)),
                Operation::U32mul,
                Operation::Add,
            ]
        },
        None => seq![
            Operation::Push(Felt::of_int(32)),
            Operation::Swap,
            Operation::U32sub,
            Operation::Drop,
        ] + pow2_ops() + seq![Operation::U32mul, Operation::Add],
    }
}

/// The 33 operations of `u32popcnt`: the bits are summed in groups of two,
/// four and eight, and the four byte sums are added up by a multiplication.
pub open spec fn u32popcnt_ops() -> Seq<Operation> {
    seq![
        Operation::Dup0,
        Operation::Push(Felt::of_int(2)),
        Operation::U32div,
        Operation::Drop,
        Operation::Push(Felt::of_int(0x5555_5555)),
        Operation::U32and,
        Operation::U32sub,
        Operation::Drop,
        Operation::Dup0,
        Operation::Push(Felt::of_int(4)),
        Operation::U32div,
        Operation::Drop,
        Operation::Push(Felt::of_int(0x3333_3333)),
        Operation::U32and,
        Operation::Swap,
        Operation::Push(Felt::of_int(0x3333_3333)),
        Operation::U32and,
        Operation::U32add,
        Operation::Drop,
        Operation::Dup0,
        Operation::Push(Felt::of_int(16)),
        Operation::U32div,
        Operation::Drop,
        Operation::U32add,
        Operation::Drop,
        Operation::Push(Felt::of_int(0x0F0F_0F0F)),
        Operation::U32and,
        Operation::Push(Felt::of_int(0x0101_0101)),
        Operation::U32mul,
        Operation::Drop,
        Operation::Push(Felt::of_int(0x0100_0000)),
        Operation::U32div,
        Operation::Drop,
    ]
}

/// The 5 operations that turn an operand under a claimed count into its
/// complement in 32 bits, `2^32 - 1 - n`.
pub open spec fn complement_ops() -> Seq<Operation> {
    seq![
        Operation::Swap,
        Operation::Neg,
        Operation::Push(Felt::of_int(0xFFFF_FFFF)),
        Operation::Add,
        Operation::Swap,
    ]
}

/// The 26 operations that check a claimed count of leading zeros, on top of
/// the stack, against the operand below it: the operand must not change when
/// it is masked with `(2^32 - 1) / 2^count`. The count stays on the stack.
pub open spec fn clz_check_ops() -> Seq<Operation> {
    seq![Operation::Swap, Operation::Dup1] + pow2_ops() + seq![
        Operation::Push(Felt::of_int(0xFFFF_FFFF)),
        Operation::Swap,
        Operation::U32div,
        Operation::Drop,
        Operation::Dup1,
        Operation::U32and,
        Operation::Eq,
        Operation::Assert(Felt::of_int(0)),
    ]
}

/// The 26 operations that check a claimed count of trailing zeros, on top of
/// the stack, against the operand below it: the operand must not change when
/// it is masked with `2^32 - 2^count`. The count stays on the stack.
pub open spec fn ctz_check_ops() -> Seq<Operation> {
    seq![Operation::Swap, Operation::Dup1] + pow2_ops() + seq![
        Operation::Push(Felt::of_int(0x1_0000_0000)),
        Operation::Swap,
        Operation::Neg,
        Operation::Add,
        Operation::Dup1,
        Operation::U32and,
        Operation::Eq,
        Operation::Assert(Felt::of_int(0)),
    ]
}

/// The 27 operations of `u32clz`: the count is popped from the advice stack
/// and checked.
pub open spec fn u32clz_ops() -> Seq<Operation> {
    seq![Operation::AdvPop] + clz_check_ops()
}

/// The 27 operations of `u32ctz`: the count is popped from the advice stack
/// and checked.
pub open spec fn u32ctz_ops() -> Seq<Operation> {
    seq![Operation::AdvPop] + ctz_check_ops()
}

/// The 32 operations of `u32clo`: the count is popped from the advice stack
/// and checked as the count of leading zeros of the complement.
pub open spec fn u32clo_ops() -> Seq<Operation> {
    seq![Operation::AdvPop] + complement_ops() + clz_check_ops()
}

/// The 32 operations of `u32cto`: the count is popped from the advice stack
/// and checked as the count of trailing zeros of the complement.
pub open spec fn u32cto_ops() -> Seq<Operation> {
    seq![Operation::AdvPop] + complement_ops() + ctz_check_ops()
}

/// The 5 operations that replace `[b, a, ...]` by the flag of `a < b`: the
/// borrow of `a - b`, made boolean.
pub open spec fn lt_ops() -> Seq<Operation> {
    seq![Operation::U32sub, Operation::Swap, Operation::Drop, Operation::Eqz, Operation::Not]
}

/// The 7 operations of `u32lte`: not less than, with the operands swapped.
pub open spec fn u32lte_ops() -> Seq<Operation> {
    seq![Operation::Swap] + lt_ops() + seq![Operation::Not]
}

/// The 6 operations of `u32gt`: less than, with the operands swapped.
pub open spec fn u32gt_ops() -> Seq<Operation> {
    seq![Operation::Swap] + lt_ops()
}

/// The 6 operations of `u32gte`: not less than.
pub open spec fn u32gte_ops() -> Seq<Operation> {
    lt_ops() + seq![Operation::Not]
}

/// The 7 operations that order `[b, a, ...]` so that the larger of the two is
/// on top: both are copied, and the borrow of `a - b` decides whether they
/// are swapped.
pub open spec fn max_and_min_ops() -> Seq<Operation> {
    seq![
        Operation::Dup1,
        Operation::Dup1,
        Operation::U32sub,
        Operation::Swap,
        Operation::Drop,
        Operation::Eqz,
        Operation::CSwap,
    ]
}

/// The 8 operations of `u32min`: order the two, drop the larger.
pub open spec fn u32min_ops() -> Seq<Operation> {
    max_and_min_ops() + seq![Operation::Drop]
}

/// The 9 operations of `u32max`: order the two, drop the smaller.
pub open spec fn u32max_ops() -> Seq<Operation> {
    max_and_min_ops() + seq![Operation::Swap, Operation::Drop]
}

/// The error that a shift or rotation by `amount` meets when `amount` is
/// above `max`.
pub open spec fn amount_out_of_bounds(amount: u8, max: u8) -> AssemblyError {
    AssemblyError::ParamOutOfBounds { value: amount as u64, min: 1, max: max as u64 }
}

// LAWS OF THE SEQUENCES
// ================================================================================================

/// A shift or rotation by the immediate zero compiles to a single no-op.
pub proof fn lemma_zero_amount_is_one_noop()
    ensures
        u32shl_ops(Some(0u8)) == seq![Operation::Noop],
        u32shr_ops(Some(0u8)) == seq![Operation::Noop],
        u32rotl_ops(Some(0u8)) == seq![Operation::Noop],
        u32rotr_ops(Some(0u8)) == seq![Operation::Noop],
{
}

/// The number of cycles that the instructions take: one for each operation
/// of their sequences.
pub proof fn lemma_cycles(err_code: Felt, op: Operation, amount: u8)
    requires
        amount != 0,
    ensures
        u32testw_ops().len() == 23,
        u32assertw_ops(err_code).len() == 6,
        arithmetic_ops(op, U32OpMode::Overflowing, None).len() == 1,
        arithmetic_ops(op, U32OpMode::Wrapping, None).len() == 2,
        u32div_ops(None).len() == 2,
        u32mod_ops(None).len() == 3,
        division_ops(None).len() == 1,
        u32not_ops().len() == 5,
        pow2_ops().len() == 16,
        u32shl_ops(None).len() == 18,
        u32shr_ops(None).len() == 18,
        u32rotl_ops(None).len() == 18,
        u32rotr_ops(None).len() == 22,
        u32shl_ops(Some(amount)).len() == 3,
        u32shr_ops(Some(amount)).len() == 3,
        u32rotl_ops(Some(amount)).len() == 3,
        u32rotr_ops(Some(amount)).len() == 3,
        u32popcnt_ops().len() == 33,
        clz_check_ops().len() == 26,
        ctz_check_ops().len() == 26,
        u32clz_ops().len() == 27,
        u32ctz_ops().len() == 27,
        u32clo_ops().len() == 32,
        u32cto_ops().len() == 32,
        lt_ops().len() == 5,
        u32lte_ops().len() == 7,
        u32gt_ops().len() == 6,
        u32gte_ops().len() == 6,
        u32min_ops().len() == 8,
        u32max_ops().len() == 9,
{
}

/// An immediate adds one cycle to an instruction, and the immediate one adds
/// two.
pub proof fn lemma_immediate_cycles(value: u32)
    ensures
        immediate_ops(None).len() == 0,
        immediate_ops(Some(value)).len() == (if value == 1 {
            2nat
        } else {
            1nat
        }),
{
}

// CONVERSIONS AND TESTS
// ================================================================================================

/// Compiles `u32testw`, which pushes one if all four elements of the top word
/// are below `2^32` and zero otherwise.
pub fn u32testw(span: &mut SpanBuilder) -> (r: Result<Option<CodeBlock>, AssemblyError>)
    ensures
        r matches Ok(None),
        final(span)@.ops == old(span)@.ops + u32testw_ops(),
        final(span)@.decorators == old(span)@.decorators,
{
    let ops = [
        // the fourth element
        Operation::Dup3,
        Operation::U32split,
        Operation::Swap,
        Operation::Drop,
        Operation::Eqz,
        // the third element
        Operation::Dup3,
        Operation::U32split,
        Operation::Swap,
        Operation::Drop,
        Operation::Eqz,
        Operation::And,
        // the second element
        Operation::Dup2,
        Operation::U32split,
        Operation::Swap,
        Operation::Drop,
        Operation::Eqz,
        Operation::And,
        // the first element
        Operation::Dup1,
        Operation::U32split,
        Operation::Swap,
        Operation::Drop,
        Operation::Eqz,
        Operation::And,
    ];
    assert(ops@ =~= u32testw_ops());
    span.add_ops(ops)
}

/// Compiles `u32assertw`, which fails the run with `err_code` unless all four
/// elements of the top word are below `2^32`.
pub fn u32assertw(span: &mut SpanBuilder, err_code: Felt) -> (r: Result<
    Option<CodeBlock>,
    AssemblyError,
>)
    ensures
        r matches Ok(None),
        final(span)@.ops == old(span)@.ops + u32assertw_ops(err_code),
        final(span)@.decorators == old(span)@.decorators,
{
    let ops = [
        // the first and the second element
        Operation::U32assert2(err_code),
        // the third and the fourth, brought to the top
        Operation::MovUp3,
        Operation::MovUp3,
        Operation::U32assert2(err_code),
        // and the first two back on top of them
        Operation::MovUp3,
        Operation::MovUp3,
    ];
    assert(ops@ =~= u32assertw_ops(err_code));
    span.add_ops(ops)
}

// ARITHMETIC OPERATIONS
// ================================================================================================

/// Compiles `u32wrapping_add` and `u32overflowing_add`, with or without an
/// immediate second operand.
pub fn u32add(span: &mut SpanBuilder, op_mode: U32OpMode, imm: Option<u32>) -> (r: Result<
    Option<CodeBlock>,
    AssemblyError,
>)
    ensures
        r matches Ok(None),
        final(span)@.ops == old(span)@.ops + arithmetic_ops(Operation::U32add, op_mode, imm),
        final(span)@.decorators == old(span)@.decorators,
{
    handle_arithmetic_operation(span, Operation::U32add, op_mode, imm)
}

/// Compiles `u32wrapping_sub` and `u32overflowing_sub`, with or without an
/// immediate second operand.
pub fn u32sub(span: &mut SpanBuilder, op_mode: U32OpMode, imm: Option<u32>) -> (r: Result<
    Option<CodeBlock>,
    AssemblyError,
>)
    ensures
        r matches Ok(None),
        final(span)@.ops == old(span)@.ops + arithmetic_ops(Operation::U32sub, op_mode, imm),
        final(span)@.decorators == old(span)@.decorators,
{
    handle_arithmetic_operation(span, Operation::U32sub, op_mode, imm)
}

/// Compiles `u32wrapping_mul` and `u32overflowing_mul`, with or without an
/// immediate second operand.
pub fn u32mul(span: &mut SpanBuilder, op_mode: U32OpMode, imm: Option<u32>) -> (r: Result<
    Option<CodeBlock>,
    AssemblyError,
>)
    ensures
        r matches Ok(None),
        final(span)@.ops == old(span)@.ops + arithmetic_ops(Operation::U32mul, op_mode, imm),
        final(span)@.decorators == old(span)@.decorators,
{
    handle_arithmetic_operation(span, Operation::U32mul, op_mode, imm)
}

/// Compiles `u32div`, which leaves the quotient. An immediate divisor of zero
/// is refused.
pub fn u32div(span: &mut SpanBuilder, imm: Option<u32>) -> (r: Result<
    Option<CodeBlock>,
    AssemblyError,
>)
    ensures
        imm == Some(0u32) ==> (r matches Err(AssemblyError::DivisionByZero)) && final(span)@
            == old(span)@,
        imm != Some(0u32) ==> (r matches Ok(None)) && final(span)@.ops == old(span)@.ops
            + u32div_ops(imm) && final(span)@.decorators == old(span)@.decorators,
{
    match handle_division(span, imm) {
        Ok(_) => {},
        Err(e) => {
            return Err(e);
        },
    }
    proof {
        assert((old(span)@.ops + division_ops(imm)).push(Operation::Drop) =~= old(span)@.ops
            + division_ops(imm).push(Operation::Drop));
    }
    span.add_op(Operation::Drop)
}

/// Compiles `u32mod`, which leaves the remainder. An immediate divisor of zero
/// is refused.
pub fn u32mod(span: &mut SpanBuilder, imm: Option<u32>) -> (r: Result<
    Option<CodeBlock>,
    AssemblyError,
>)
    ensures
        imm == Some(0u32) ==> (r matches Err(AssemblyError::DivisionByZero)) && final(span)@
            == old(span)@,
        imm != Some(0u32) ==> (r matches Ok(None)) && final(span)@.ops == old(span)@.ops
            + u32mod_ops(imm) && final(span)@.decorators == old(span)@.decorators,
{
    match handle_division(span, imm) {
        Ok(_) => {},
        Err(e) => {
            return Err(e);
        },
    }
    let ops = [Operation::Swap, Operation::Drop];
    assert(ops@ =~= seq![Operation::Swap, Operation::Drop]);
    span.add_ops(ops)
}

/// Compiles `u32divmod`, which leaves the remainder on top of the quotient.
/// An immediate divisor of zero is refused.
pub fn u32divmod(span: &mut SpanBuilder, imm: Option<u32>) -> (r: Result<
    Option<CodeBlock>,
    AssemblyError,
>)
    ensures
        imm == Some(0u32) ==> (r matches Err(AssemblyError::DivisionByZero)) && final(span)@
            == old(span)@,
        imm != Some(0u32) ==> (r matches Ok(None)) && final(span)@.ops == old(span)@.ops
            + division_ops(imm) && final(span)@.decorators == old(span)@.decorators,
{
    handle_division(span, imm)
}

// ARITHMETIC OPERATIONS - HELPERS
// ================================================================================================

/// Appends an addition, subtraction or multiplication: the immediate if there
/// is one, the base operation `op`, and in wrapping mode the drop of the
/// carry, borrow or high limb. Neither mode checks that the operands are
/// below `2^32`.
fn handle_arithmetic_operation(
    span: &mut SpanBuilder,
    op: Operation,
    op_mode: U32OpMode,
    imm: Option<u32>,
) -> (r: Result<Option<CodeBlock>, AssemblyError>)
    ensures
        r matches Ok(None),
        final(span)@.ops == old(span)@.ops + arithmetic_ops(op, op_mode, imm),
        final(span)@.decorators == old(span)@.decorators,
{
    if let Some(value) = imm {
        push_u32_value(span, value);
    }
    assert(span@.ops =~= old(span)@.ops + immediate_ops(imm));

    span.push_op(op);

    match op_mode {
        U32OpMode::Wrapping => {
            proof {
                assert((old(span)@.ops + immediate_ops(imm)).push(op).push(Operation::Drop)
                    =~= old(span)@.ops + arithmetic_ops(op, op_mode, imm));
            }
            span.add_op(Operation::Drop)
        },
        U32OpMode::Overflowing => {
            proof {
                assert((old(span)@.ops + immediate_ops(imm)).push(op) =~= old(span)@.ops
                    + arithmetic_ops(op, op_mode, imm));
            }
            Ok(None)
        },
    }
}

/// Appends what the three division instructions share: the immediate if
/// there is one, and the division. An immediate of zero is refused before
/// anything is appended.
fn handle_division(span: &mut SpanBuilder, imm: Option<u32>) -> (r: Result<
    Option<CodeBlock>,
    AssemblyError,
>)
    ensures
        imm == Some(0u32) ==> (r matches Err(AssemblyError::DivisionByZero)) && final(span)@
            == old(span)@,
        imm != Some(0u32) ==> (r matches Ok(None)) && final(span)@.ops == old(span)@.ops
            + division_ops(imm) && final(span)@.decorators == old(span)@.decorators,
{
    if let Some(value) = imm {
        if value == 0 {
            return Err(AssemblyError::DivisionByZero);
        }
        push_u32_value(span, value);
    }
    proof {
        assert((old(span)@.ops + immediate_ops(imm)).push(Operation::U32div) =~= old(span)@.ops
            + division_ops(imm));
        assert(span@.ops =~= old(span)@.ops + immediate_ops(imm));
    }
    span.add_op(Operation::U32div)
}

// BITWISE OPERATIONS
// ================================================================================================

/// Compiles `u32not`, which fails the run unless its operand is below `2^32`
/// and leaves the operand with all 32 bits flipped.
pub fn u32not(span: &mut SpanBuilder) -> (r: Result<Option<CodeBlock>, AssemblyError>)
    ensures
        r matches Ok(None),
        final(span)@.ops == old(span)@.ops + u32not_ops(),
        final(span)@.decorators == old(span)@.decorators,
{
    let ops = [
        // subtracting from a mask of 32 ones flips every bit
        Operation::Push(Felt::from(u32::MAX)),
        Operation::U32assert2(Felt::zero()),
        Operation::Swap,
        Operation::U32sub,
        // the borrow, which is zero
        Operation::Drop,
    ];
    assert(ops@ =~= u32not_ops());
    span.add_ops(ops)
}

/// Compiles `u32shl`, a shift to the left by the immediate or, without one,
/// by the amount on top of the stack. An immediate above
/// [`MAX_U32_SHIFT_VALUE`] is refused.
pub fn u32shl(span: &mut SpanBuilder, imm: Option<u8>) -> (r: Result<
    Option<CodeBlock>,
    AssemblyError,
>)
    ensures
        match imm {
            Some(amount) if amount > MAX_U32_SHIFT_VALUE => r matches Err(e) && e
                == amount_out_of_bounds(amount, MAX_U32_SHIFT_VALUE) && final(span)@ == old(span)@,
            _ => (r matches Ok(None)) && final(span)@.ops == old(span)@.ops + u32shl_ops(imm)
                && final(span)@.decorators == old(span)@.decorators,
        },
{
    match prepare_bitwise::<MAX_U32_SHIFT_VALUE>(span, imm) {
        Ok(_) => {},
        Err(e) => {
            return Err(e);
        },
    }
    append_tail(span, imm, [Operation::U32mul, Operation::Drop])
}

/// Compiles `u32shr`, a shift to the right by the immediate or, without one,
/// by the amount on top of the stack. An immediate above
/// [`MAX_U32_SHIFT_VALUE`] is refused.
pub fn u32shr(span: &mut SpanBuilder, imm: Option<u8>) -> (r: Result<
    Option<CodeBlock>,
    AssemblyError,
>)
    ensures
        match imm {
            Some(amount) if amount > MAX_U32_SHIFT_VALUE => r matches Err(e) && e
                == amount_out_of_bounds(amount, MAX_U32_SHIFT_VALUE) && final(span)@ == old(span)@,
            _ => (r matches Ok(None)) && final(span)@.ops == old(span)@.ops + u32shr_ops(imm)
                && final(span)@.decorators == old(span)@.decorators,
        },
{
    match prepare_bitwise::<MAX_U32_SHIFT_VALUE>(span, imm) {
        Ok(_) => {},
        Err(e) => {
            return Err(e);
        },
    }
    append_tail(span, imm, [Operation::U32div, Operation::Drop])
}

/// Compiles `u32rotl`, a rotation to the left by the immediate or, without
/// one, by the amount on top of the stack. An immediate above
/// [`MAX_U32_ROTATE_VALUE`] is refused.
pub fn u32rotl(span: &mut SpanBuilder, imm: Option<u8>) -> (r: Result<
    Option<CodeBlock>,
    AssemblyError,
>)
    ensures
        match imm {
            Some(amount) if amount > MAX_U32_ROTATE_VALUE => r matches Err(e) && e
                == amount_out_of_bounds(amount, MAX_U32_ROTATE_VALUE) && final(span)@ == old(span)@,
            _ => (r matches Ok(None)) && final(span)@.ops == old(span)@.ops + u32rotl_ops(imm)
                && final(span)@.decorators == old(span)@.decorators,
        },
{
    match prepare_bitwise::<MAX_U32_ROTATE_VALUE>(span, imm) {
        Ok(_) => {},
        Err(e) => {
            return Err(e);
        },
    }
    append_tail(span, imm, [Operation::U32mul, Operation::Add])
}

/// Compiles `u32rotr`, a rotation to the right by the immediate or, without
/// one, by the amount on top of the stack. An immediate above
/// [`MAX_U32_ROTATE_VALUE`] is refused.
pub fn u32rotr(span: &mut SpanBuilder, imm: Option<u8>) -> (r: Result<
    Option<CodeBlock>,
    AssemblyError,
>)
    ensures
        match imm {
            Some(amount) if amount > MAX_U32_ROTATE_VALUE => r matches Err(e) && e
                == amount_out_of_bounds(amount, MAX_U32_ROTATE_VALUE) && final(span)@ == old(span)@,
            _ => (r matches Ok(None)) && final(span)@.ops == old(span)@.ops + u32rotr_ops(imm)
                && final(span)@.decorators == old(span)@.decorators,
        },
{
    match imm {
        Some(0) => {
            // a rotation by nothing
            span.push_op(Operation::Noop);
            assert(span@.ops =~= old(span)@.ops + u32rotr_ops(imm));
            return Ok(None);
        },
        Some(amount) => {
            match validate_param(amount, 1, MAX_U32_ROTATE_VALUE) {
                Ok(_) => {},
                Err(e) => {
                    return Err(e);
                },
            }
            let factor: u64 = 1u64 << (32 - amount);
            proof {
                lemma_pow2_is_shl((32 - amount) as u64);
            }
            span.push_op(Operation::Push(Felt::new(factor)));
        },
        None => {
            let ops = [
                Operation::Push(Felt::new(32)),
                Operation::Swap,
                Operation::U32sub,
                Operation::Drop,
            ];
            span.push_ops(ops);
            append_pow2_op(span);
        },
    }
    let tail = [Operation::U32mul, Operation::Add];
    span.push_ops(tail);
    assert(span@.ops =~= old(span)@.ops + u32rotr_ops(imm));
    Ok(None)
}

/// Compiles `u32popcnt`, which replaces its operand by the number of its set
/// bits. The sequence is the same for every operand.
pub fn u32popcnt(span: &mut SpanBuilder) -> (r: Result<Option<CodeBlock>, AssemblyError>)
    ensures
        r matches Ok(None),
        final(span)@.ops == old(span)@.ops + u32popcnt_ops(),
        final(span)@.decorators == old(span)@.decorators,
{
    let ops = [
        // i = i - ((i >> 1) & 0x55555555), the shift being a division by 2
        Operation::Dup0,
        Operation::Push(Felt::new(2)),
        Operation::U32div,
        Operation::Drop,
        Operation::Push(Felt::new(0x5555_5555)),
        Operation::U32and,
        Operation::U32sub,
        Operation::Drop,
        // i = (i & 0x33333333) + ((i >> 2) & 0x33333333), with a division by 4
        Operation::Dup0,
        Operation::Push(Felt::new(4)),
        Operation::U32div,
        Operation::Drop,
        Operation::Push(Felt::new(0x3333_3333)),
        Operation::U32and,
        Operation::Swap,
        Operation::Push(Felt::new(0x3333_3333)),
        Operation::U32and,
        Operation::U32add,
        Operation::Drop,
        // i = (i + (i >> 4)) & 0x0F0F0F0F, with a division by 16
        Operation::Dup0,
        Operation::Push(Felt::new(16)),
        Operation::U32div,
        Operation::Drop,
        Operation::U32add,
        Operation::Drop,
        Operation::Push(Felt::new(0x0F0F_0F0F)),
        Operation::U32and,
        // (i * 0x01010101) >> 24, with a division by 2^24
        Operation::Push(Felt::new(0x0101_0101)),
        Operation::U32mul,
        Operation::Drop,
        Operation::Push(Felt::new(0x0100_0000)),
        Operation::U32div,
        Operation::Drop,
    ];
    assert(ops@ =~= u32popcnt_ops());
    span.add_ops(ops)
}

/// Compiles `u32clz`, which replaces its operand by the number of its leading
/// zeros. The count is asked of the advice provider and checked by the run.
pub fn u32clz(span: &mut SpanBuilder) -> (r: Result<Option<CodeBlock>, AssemblyError>)
    ensures
        r matches Ok(None),
        final(span)@.ops == old(span)@.ops + u32clz_ops(),
        final(span)@.decorators == old(span)@.decorators.push(
            (old(span)@.ops.len() as usize, AdviceInjector::Clz),
        ),
{
    span.push_advice_injector(AdviceInjector::Clz);
    span.push_op(Operation::AdvPop);
    let r = calculate_clz(span);
    assert(span@.ops =~= old(span)@.ops + u32clz_ops());
    r
}

/// Compiles `u32ctz`, which replaces its operand by the number of its
/// trailing zeros. The count is asked of the advice provider and checked by
/// the run.
pub fn u32ctz(span: &mut SpanBuilder) -> (r: Result<Option<CodeBlock>, AssemblyError>)
    ensures
        r matches Ok(None),
        final(span)@.ops == old(span)@.ops + u32ctz_ops(),
        final(span)@.decorators == old(span)@.decorators.push(
            (old(span)@.ops.len() as usize, AdviceInjector::Ctz),
        ),
{
    span.push_advice_injector(AdviceInjector::Ctz);
    span.push_op(Operation::AdvPop);
    let r = calculate_ctz(span);
    assert(span@.ops =~= old(span)@.ops + u32ctz_ops());
    r
}

/// Compiles `u32clo`, which replaces its operand by the number of its leading
/// ones. The count is asked of the advice provider and checked by the run as
/// the number of leading zeros of the complement.
pub fn u32clo(span: &mut SpanBuilder) -> (r: Result<Option<CodeBlock>, AssemblyError>)
    ensures
        r matches Ok(None),
        final(span)@.ops == old(span)@.ops + u32clo_ops(),
        final(span)@.decorators == old(span)@.decorators.push(
            (old(span)@.ops.len() as usize, AdviceInjector::Clo),
        ),
{
    span.push_advice_injector(AdviceInjector::Clo);
    span.push_op(Operation::AdvPop);
    append_complement(span);
    let r = calculate_clz(span);
    assert(span@.ops =~= old(span)@.ops + u32clo_ops());
    r
}

/// Compiles `u32cto`, which replaces its operand by the number of its
/// trailing ones. The count is asked of the advice provider and checked by
/// the run as the number of trailing zeros of the complement.
pub fn u32cto(span: &mut SpanBuilder) -> (r: Result<Option<CodeBlock>, AssemblyError>)
    ensures
        r matches Ok(None),
        final(span)@.ops == old(span)@.ops + u32cto_ops(),
        final(span)@.decorators == old(span)@.decorators.push(
            (old(span)@.ops.len() as usize, AdviceInjector::Cto),
        ),
{
    span.push_advice_injector(AdviceInjector::Cto);
    span.push_op(Operation::AdvPop);
    append_complement(span);
    let r = calculate_ctz(span);
    assert(span@.ops =~= old(span)@.ops + u32cto_ops());
    r
}

// BITWISE OPERATIONS - HELPERS
// ================================================================================================

/// `2^shift` as a shift of one.
proof fn lemma_pow2_is_shl(shift: u64)
    requires
        shift < 64,
    ensures
        1u64 << shift == pow2(shift as nat),
{
    lemma_u64_pow2_no_overflow(shift as nat);
    lemma_u64_shl_is_mul(1, shift);
}

/// Turns `[b, a, ...]` into `[2^b, a, ...]`, with `b` the immediate or,
/// without one, the value on top of the stack. An immediate above `MAX_VALUE`
/// is refused.
fn prepare_bitwise<const MAX_VALUE: u8>(span: &mut SpanBuilder, imm: Option<u8>) -> (r: Result<
    (),
    AssemblyError,
>)
    requires
        MAX_VALUE < 64,
    ensures
        match imm {
            Some(amount) if amount > MAX_VALUE => r matches Err(e) && e == amount_out_of_bounds(
                amount,
                MAX_VALUE,
            ) && final(span)@ == old(span)@,
            _ => r is Ok && final(span)@.ops == old(span)@.ops + pow2_operand_ops(imm)
                && final(span)@.decorators == old(span)@.decorators,
        },
{
    match imm {
        Some(0) => {
            // a shift or rotation by nothing
            span.push_op(Operation::Noop);
            assert(span@.ops =~= old(span)@.ops + pow2_operand_ops(imm));
        },
        Some(amount) => {
            match validate_param(amount, 1, MAX_VALUE) {
                Ok(_) => {},
                Err(e) => {
                    return Err(e);
                },
            }
            let factor: u64 = 1u64 << amount;
            proof {
                lemma_pow2_is_shl(amount as u64);
            }
            span.push_op(Operation::Push(Felt::new(factor)));
            assert(span@.ops =~= old(span)@.ops + pow2_operand_ops(imm));
        },
        None => {
            append_pow2_op(span);
        },
    }
    Ok(())
}

/// Appends the two operations that follow the power of two in a shift or
/// rotation, unless the immediate is zero.
fn append_tail(span: &mut SpanBuilder, imm: Option<u8>, tail: [Operation; 2]) -> (r: Result<
    Option<CodeBlock>,
    AssemblyError,
>)
    ensures
        r matches Ok(None),
        final(span)@.ops == if imm == Some(0u8) {
            old(span)@.ops
        } else {
            old(span)@.ops + tail@
        },
        final(span)@.decorators == old(span)@.decorators,
{
    if imm != Some(0) {
        span.add_ops(tail)
    } else {
        Ok(None)
    }
}

/// Appends the operations that turn the operand under a claimed count into
/// its complement.
fn append_complement(span: &mut SpanBuilder)
    ensures
        final(span)@.ops == old(span)@.ops + complement_ops(),
        final(span)@.decorators == old(span)@.decorators,
{
    let ops = [
        Operation::Swap,
        Operation::Neg,
        Operation::Push(Felt::from(u32::MAX)),
        Operation::Add,
        Operation::Swap,
    ];
    assert(ops@ =~= complement_ops());
    span.push_ops(ops);
}

/// Appends the check of a claimed count of leading zeros: 26 cycles.
fn calculate_clz(span: &mut SpanBuilder) -> (r: Result<Option<CodeBlock>, AssemblyError>)
    ensures
        r matches Ok(None),
        final(span)@.ops == old(span)@.ops + clz_check_ops(),
        final(span)@.decorators == old(span)@.decorators,
{
    // [clz, n, ...] -> [clz, n, clz, ...]
    let copy = [Operation::Swap, Operation::Dup1];
    span.push_ops(copy);

    // -> [2^clz, n, clz, ...]
    append_pow2_op(span);

    let check = [
        // -> [mask, n, clz, ...]
        Operation::Push(Felt::from(u32::MAX)),
        Operation::Swap,
        Operation::U32div,
        Operation::Drop,
        // -> [mask & n, n, clz, ...]
        Operation::Dup1,
        Operation::U32and,
        // -> [clz, ...]
        Operation::Eq,
        Operation::Assert(Felt::zero()),
    ];
    let r = span.add_ops(check);
    assert(span@.ops =~= old(span)@.ops + clz_check_ops());
    r
}

/// Appends the check of a claimed count of trailing zeros: 26 cycles.
fn calculate_ctz(span: &mut SpanBuilder) -> (r: Result<Option<CodeBlock>, AssemblyError>)
    ensures
        r matches Ok(None),
        final(span)@.ops == old(span)@.ops + ctz_check_ops(),
        final(span)@.decorators == old(span)@.decorators,
{
    // [ctz, n, ...] -> [ctz, n, ctz, ...]
    let copy = [Operation::Swap, Operation::Dup1];
    span.push_ops(copy);

    // -> [2^ctz, n, ctz, ...]
    append_pow2_op(span);

    let check = [
        // -> [mask, n, ctz, ...]
        Operation::Push(Felt::new(0x1_0000_0000)),
        Operation::Swap,
        Operation::Neg,
        Operation::Add,
        // -> [mask & n, n, ctz, ...]
        Operation::Dup1,
        Operation::U32and,
        // -> [ctz, ...]
        Operation::Eq,
        Operation::Assert(Felt::zero()),
    ];
    let r = span.add_ops(check);
    assert(span@.ops =~= old(span)@.ops + ctz_check_ops());
    r
}

// COMPARISON OPERATIONS
// ================================================================================================

/// Compiles `u32lt`, which replaces `[b, a, ...]` by the flag of `a < b`.
pub fn u32lt(span: &mut SpanBuilder) -> (r: Result<Option<CodeBlock>, AssemblyError>)
    ensures
        r matches Ok(None),
        final(span)@.ops == old(span)@.ops + lt_ops(),
        final(span)@.decorators == old(span)@.decorators,
{
    compute_lt(span);
    Ok(None)
}

/// Compiles `u32lte`, which replaces `[b, a, ...]` by the flag of `a <= b`.
pub fn u32lte(span: &mut SpanBuilder) -> (r: Result<Option<CodeBlock>, AssemblyError>)
    ensures
        r matches Ok(None),
        final(span)@.ops == old(span)@.ops + u32lte_ops(),
        final(span)@.decorators == old(span)@.decorators,
{
    // b < a, with the operands swapped
    span.push_op(Operation::Swap);
    compute_lt(span);

    // and the flag flipped
    let r = span.add_op(Operation::Not);
    assert(span@.ops =~= old(span)@.ops + u32lte_ops());
    r
}

/// Compiles `u32gt`, which replaces `[b, a, ...]` by the flag of `a > b`.
pub fn u32gt(span: &mut SpanBuilder) -> (r: Result<Option<CodeBlock>, AssemblyError>)
    ensures
        r matches Ok(None),
        final(span)@.ops == old(span)@.ops + u32gt_ops(),
        final(span)@.decorators == old(span)@.decorators,
{
    // b < a, with the operands swapped
    span.push_op(Operation::Swap);
    compute_lt(span);
    assert(span@.ops =~= old(span)@.ops + u32gt_ops());
    Ok(None)
}

/// Compiles `u32gte`, which replaces `[b, a, ...]` by the flag of `a >= b`.
pub fn u32gte(span: &mut SpanBuilder) -> (r: Result<Option<CodeBlock>, AssemblyError>)
    ensures
        r matches Ok(None),
        final(span)@.ops == old(span)@.ops + u32gte_ops(),
        final(span)@.decorators == old(span)@.decorators,
{
    compute_lt(span);

    // the flag flipped
    let r = span.add_op(Operation::Not);
    assert(span@.ops =~= old(span)@.ops + u32gte_ops());
    r
}

/// Compiles `u32min`, which replaces `[b, a, ...]` by the smaller of the two.
pub fn u32min(span: &mut SpanBuilder) -> (r: Result<Option<CodeBlock>, AssemblyError>)
    ensures
        r matches Ok(None),
        final(span)@.ops == old(span)@.ops + u32min_ops(),
        final(span)@.decorators == old(span)@.decorators,
{
    compute_max_and_min(span);

    // the larger one goes
    let r = span.add_op(Operation::Drop);
    assert(span@.ops =~= old(span)@.ops + u32min_ops());
    r
}

/// Compiles `u32max`, which replaces `[b, a, ...]` by the larger of the two.
pub fn u32max(span: &mut SpanBuilder) -> (r: Result<Option<CodeBlock>, AssemblyError>)
    ensures
        r matches Ok(None),
        final(span)@.ops == old(span)@.ops + u32max_ops(),
        final(span)@.decorators == old(span)@.decorators,
{
    compute_max_and_min(span);

    // the smaller one goes
    let ops = [Operation::Swap, Operation::Drop];
    let r = span.add_ops(ops);
    assert(span@.ops =~= old(span)@.ops + u32max_ops());
    r
}

// COMPARISON OPERATIONS - HELPERS
// ================================================================================================

/// Appends the operations that replace `[b, a, ...]` by the flag of `a < b`.
fn compute_lt(span: &mut SpanBuilder)
    ensures
        final(span)@.ops == old(span)@.ops + lt_ops(),
        final(span)@.decorators == old(span)@.decorators,
{
    let ops = [
        // a - b, of which only the borrow is kept
        Operation::U32sub,
        Operation::Swap,
        Operation::Drop,
        // the borrow as a flag
        Operation::Eqz,
        Operation::Not,
    ];
    assert(ops@ =~= lt_ops());
    span.push_ops(ops)
}

/// Appends the operations that order `[b, a, ...]` so that the larger of the
/// two is on top and the smaller below it.
fn compute_max_and_min(span: &mut SpanBuilder)
    ensures
        final(span)@.ops == old(span)@.ops + max_and_min_ops(),
        final(span)@.decorators == old(span)@.decorators,
{
    // copies of both
    let copies = [Operation::Dup1, Operation::Dup1];
    span.push_ops(copies);

    let ops = [
        Operation::U32sub,
        Operation::Swap,
        Operation::Drop,
        // no borrow: the second is at least the first, and they change places
        Operation::Eqz,
        Operation::CSwap,
    ];
    span.push_ops(ops);
    assert(span@.ops =~= old(span)@.ops + max_and_min_ops());
}

} // verus!
