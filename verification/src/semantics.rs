//! What the compiled instructions compute.
//!
//! Each law takes a machine whose operand stack holds the operands of an
//! instruction on top of any `rest`, runs the operations that the instruction
//! compiles to, and says where the run ends. The stacks are written bottom
//! first: `rest.push(x).push(y)` has `y` on top.
use vstd::prelude::*;
use vstd::arithmetic::power2::lemma2_to64;
use vstd::arithmetic::power2::lemma2_to64_rest;
use vstd::arithmetic::power2::lemma_pow2_adds;
use vstd::arithmetic::power2::lemma_pow2_pos;
use vstd::arithmetic::power2::lemma_pow2_strictly_increases;
use vstd::arithmetic::power2::lemma_pow2_unfold;
use vstd::arithmetic::power2::pow2;
use vstd::arithmetic::div_mod::lemma_fundamental_div_mod_converse;
use vstd::bits::lemma_u32_shr_is_div;
use vstd::bits::lemma_u64_low_bits_mask_is_mod;
use vstd::bits::low_bits_mask;
use vstd::bits::lemma_u64_shr_is_div;
use vstd::bits::lemma_u64_shl_is_mul;
use crate::field_ops::pow2_ops;
use crate::bitwise::BitwiseOp;
use crate::errors::ExecutionError;
use crate::felt::Felt;
use crate::felt::MODULUS;
use crate::operation::Operation;
use crate::params::push_u32_ops;
use crate::processor::done;
use crate::processor::flag;
use crate::processor::high_limb;
use crate::processor::is_u32;
use crate::processor::low_limb;
use crate::processor::restack;
use crate::processor::run;
use crate::processor::run_from;
use crate::processor::step;
use crate::processor::two_32;
use crate::processor::MachineState;
use crate::processor::Outcome;
use crate::steps::after_bitwise;
use crate::steps::lemma_add;
use crate::steps::lemma_advpop;
use crate::steps::lemma_advpop_fails;
use crate::steps::lemma_eq;
use crate::steps::lemma_neg;
use crate::steps::lemma_bitwise;
use crate::steps::lemma_dup0;
use crate::steps::lemma_assert;
use crate::steps::lemma_assert_fails;
use crate::steps::lemma_expacc;
use crate::steps::lemma_and;
use crate::steps::lemma_dup2;
use crate::steps::lemma_dup3;
use crate::steps::lemma_movup3;
use crate::steps::lemma_u32assert2_fails_top;
use crate::steps::lemma_u32split;
use crate::steps::lemma_cswap;
use crate::steps::lemma_drop;
use crate::steps::lemma_dup1;
use crate::steps::lemma_eqz;
use crate::steps::lemma_finish;
use crate::steps::lemma_noop;
use crate::steps::lemma_incr;
use crate::steps::lemma_pad;
use crate::steps::lemma_not;
use crate::steps::lemma_push;
use crate::steps::lemma_swap;
use crate::steps::lemma_u32add;
use crate::steps::lemma_u32assert2;
use crate::steps::lemma_u32assert2_fails_second;
use crate::steps::lemma_u32div;
use crate::steps::lemma_u32div_fails;
use crate::steps::lemma_u32mul;
use crate::steps::lemma_u32sub;
use crate::steps::stopped;
use crate::u32_ops::arithmetic_ops;
use crate::u32_ops::division_ops;
use crate::u32_ops::immediate_ops;
use crate::u32_ops::clz_check_ops;
use crate::u32_ops::complement_ops;
use crate::u32_ops::ctz_check_ops;
use crate::u32_ops::lt_ops;
use crate::u32_ops::u32clo_ops;
use crate::u32_ops::u32clz_ops;
use crate::u32_ops::u32cto_ops;
use crate::u32_ops::u32ctz_ops;
use crate::u32_ops::u32popcnt_ops;
use crate::u32_ops::pow2_operand_ops;
use crate::u32_ops::u32rotl_ops;
use crate::u32_ops::u32rotr_ops;
use crate::u32_ops::u32shl_ops;
use crate::u32_ops::u32shr_ops;
use crate::u32_ops::u32assertw_ops;
use crate::u32_ops::u32testw_ops;
use crate::u32_ops::max_and_min_ops;
use crate::u32_ops::u32div_ops;
use crate::u32_ops::u32gt_ops;
use crate::u32_ops::u32gte_ops;
use crate::u32_ops::u32lte_ops;
use crate::u32_ops::u32max_ops;
use crate::u32_ops::u32min_ops;
use crate::u32_ops::u32mod_ops;
use crate::u32_ops::u32not_ops;
use crate::u32_ops::U32OpMode;

verus! {

/// The element that a 32-bit value stands for.
pub open spec fn word(value: u32) -> Felt {
    Felt::of_int(value as int)
}

// RUNS
// ================================================================================================

/// Within the first of two sequences, a run of both goes as a run of the
/// first, and then on into the second.
proof fn lemma_run_from_concat(s: MachineState, a: Seq<Operation>, b: Seq<Operation>, from: int)
    requires
        0 <= from <= a.len(),
    ensures
        run_from(s, a + b, from) == (if run_from(s, a, from).error is None {
            run_from(run_from(s, a, from).state, a + b, a.len() as int)
        } else {
            run_from(s, a, from)
        }),
    decreases a.len() - from,
{
    reveal(run_from);
    if from < a.len() {
        assert((a + b)[from] == a[from]);
        match step(s, a[from]) {
            Ok(next) => {
                lemma_run_from_concat(next, a, b, from + 1);
            },
            Err(_) => {},
        }
    }
}

/// Behind the first of two sequences, a run of both goes as a run of the
/// second.
proof fn lemma_run_from_shift(s: MachineState, a: Seq<Operation>, b: Seq<Operation>, from: int)
    requires
        0 <= from <= b.len(),
    ensures
        run_from(s, a + b, a.len() + from) == run_from(s, b, from),
    decreases b.len() - from,
{
    reveal(run_from);
    if from < b.len() {
        assert((a + b)[a.len() + from] == b[from]);
        match step(s, b[from]) {
            Ok(next) => {
                lemma_run_from_shift(next, a, b, from + 1);
            },
            Err(_) => {},
        }
    }
}

/// A run of two sequences one after the other is a run of the first and,
/// unless that fails, a run of the second from where the first ended.
pub proof fn lemma_run_concat(s: MachineState, a: Seq<Operation>, b: Seq<Operation>)
    ensures
        run(s, a + b) == (if run(s, a).error is None {
            run(run(s, a).state, b)
        } else {
            run(s, a)
        }),
{
    lemma_run_from_concat(s, a, b, 0);
    lemma_run_from_shift(run(s, a).state, a, b, 0);
}

/// A run of no operations ends where it began.
pub proof fn lemma_run_empty(s: MachineState)
    ensures
        run(s, Seq::empty()) == done(s),
{
    reveal(run_from);
}

// IMMEDIATES
// ================================================================================================

/// The operations that push a 32-bit constant leave it on top of the stack.
pub proof fn lemma_push_u32(s: MachineState, value: u32)
    ensures
        run(s, push_u32_ops(value)) == done(restack(s, s.stack.push(word(value)))),
{
    let ops = push_u32_ops(value);
    if value == 0 {
        lemma_pad(s, ops, 0, s.stack);
        lemma_finish(restack(s, s.stack.push(word(0))), ops);
    } else if value == 1 {
        lemma_pad(s, ops, 0, s.stack);
        let s1 = restack(s, s.stack.push(Felt::of_int(0)));
        lemma_incr(s1, ops, 1, s.stack, Felt::of_int(0));
        lemma_finish(restack(s, s.stack.push(word(1))), ops);
    } else {
        lemma_push(s, ops, 0, s.stack, word(value));
        lemma_finish(restack(s, s.stack.push(word(value))), ops);
    }
}

// ARITHMETIC
// ================================================================================================

/// The stack that a binary instruction finds: the first operand on top of
/// `rest` and, unless the second operand is an immediate, the second on top
/// of the first.
pub open spec fn binary_operands(rest: Seq<Felt>, a: u32, b: u32, imm: Option<u32>) -> Seq<Felt> {
    match imm {
        Some(_) => rest.push(word(a)),
        None => rest.push(word(a)).push(word(b)),
    }
}

/// The operations of an arithmetic instruction without the push of the
/// immediate.
pub open spec fn arithmetic_core(op: Operation, op_mode: U32OpMode) -> Seq<Operation> {
    match op_mode {
        U32OpMode::Wrapping => seq![op, Operation::Drop],
        U32OpMode::Overflowing => seq![op],
    }
}

/// An immediate, once pushed, is an operand like one that was on the stack.
proof fn lemma_immediate(
    s: MachineState,
    rest: Seq<Felt>,
    a: u32,
    b: u32,
    imm: Option<u32>,
    core: Seq<Operation>,
)
    requires
        imm matches Some(v) ==> v == b,
        s.stack == binary_operands(rest, a, b, imm),
    ensures
        run(s, immediate_ops(imm) + core) == run(
            restack(s, rest.push(word(a)).push(word(b))),
            core,
        ),
{
    lemma_run_concat(s, immediate_ops(imm), core);
    match imm {
        Some(v) => {
            lemma_push_u32(s, v);
        },
        None => {
            assert(s == restack(s, rest.push(word(a)).push(word(b))));
        },
    }
}

/// The product of two 32-bit values is below the modulus.
proof fn lemma_word_product(a: u32, b: u32)
    ensures
        word(a).times(word(b)).as_int() == a * b,
        0 <= a * b < MODULUS,
{
    assert(0 <= a * b <= 0xFFFF_FFFF * 0xFFFF_FFFF) by (nonlinear_arith)
        requires
            0 <= a <= 0xFFFF_FFFF,
            0 <= b <= 0xFFFF_FFFF,
    ;
}

/// `u32wrapping_add` leaves the sum modulo `2^32`; `u32overflowing_add`
/// leaves on top of it the carry, which is one if the sum is `2^32` or more
/// and zero otherwise.
pub proof fn lemma_u32add_computes(
    s: MachineState,
    rest: Seq<Felt>,
    a: u32,
    b: u32,
    op_mode: U32OpMode,
    imm: Option<u32>,
)
    requires
        imm matches Some(v) ==> v == b,
        s.stack == binary_operands(rest, a, b, imm),
    ensures
        run(s, arithmetic_ops(Operation::U32add, op_mode, imm)) == done(
            restack(
                s,
                match op_mode {
                    U32OpMode::Wrapping => rest.push(Felt::of_int((a + b) % two_32())),
                    U32OpMode::Overflowing => rest.push(Felt::of_int((a + b) % two_32())).push(
                        flag(a + b >= two_32()),
                    ),
                },
            ),
        ),
{
    let core = arithmetic_core(Operation::U32add, op_mode);
    assert(arithmetic_ops(Operation::U32add, op_mode, imm) =~= immediate_ops(imm) + core);
    lemma_immediate(s, rest, a, b, imm, core);
    let s0 = restack(s, rest.push(word(a)).push(word(b)));
    let low = Felt::of_int((a + b) % two_32());
    let carry = flag(a + b >= two_32());
    lemma_u32add(s0, core, 0, rest, word(a), word(b));
    assert(low_limb(word(a).plus(word(b)).as_int() as int) == low);
    assert(high_limb(word(a).plus(word(b)).as_int() as int) == carry);
    let s1 = restack(s, rest.push(low).push(carry));
    match op_mode {
        U32OpMode::Wrapping => {
            lemma_drop(s1, core, 1, rest.push(low), carry);
            lemma_finish(restack(s, rest.push(low)), core);
        },
        U32OpMode::Overflowing => {
            lemma_finish(s1, core);
        },
    }
}

/// `u32wrapping_sub` leaves the difference modulo `2^32`;
/// `u32overflowing_sub` leaves on top of it the borrow, which is one if the
/// first operand is below the second and zero otherwise.
pub proof fn lemma_u32sub_computes(
    s: MachineState,
    rest: Seq<Felt>,
    a: u32,
    b: u32,
    op_mode: U32OpMode,
    imm: Option<u32>,
)
    requires
        imm matches Some(v) ==> v == b,
        s.stack == binary_operands(rest, a, b, imm),
    ensures
        run(s, arithmetic_ops(Operation::U32sub, op_mode, imm)) == done(
            restack(
                s,
                match op_mode {
                    U32OpMode::Wrapping => rest.push(Felt::of_int((a - b) % two_32())),
                    U32OpMode::Overflowing => rest.push(Felt::of_int((a - b) % two_32())).push(
                        flag(a < b),
                    ),
                },
            ),
        ),
{
    let core = arithmetic_core(Operation::U32sub, op_mode);
    assert(arithmetic_ops(Operation::U32sub, op_mode, imm) =~= immediate_ops(imm) + core);
    lemma_immediate(s, rest, a, b, imm, core);
    let s0 = restack(s, rest.push(word(a)).push(word(b)));
    let low = Felt::of_int((a - b) % two_32());
    let borrow = flag(a < b);
    lemma_u32sub(s0, core, 0, rest, word(a), word(b));
    let s1 = restack(s, rest.push(low).push(borrow));
    match op_mode {
        U32OpMode::Wrapping => {
            lemma_drop(s1, core, 1, rest.push(low), borrow);
            lemma_finish(restack(s, rest.push(low)), core);
        },
        U32OpMode::Overflowing => {
            lemma_finish(s1, core);
        },
    }
}

/// `u32wrapping_mul` leaves the product modulo `2^32`;
/// `u32overflowing_mul` leaves on top of it what of the product lies above
/// the low 32 bits.
pub proof fn lemma_u32mul_computes(
    s: MachineState,
    rest: Seq<Felt>,
    a: u32,
    b: u32,
    op_mode: U32OpMode,
    imm: Option<u32>,
)
    requires
        imm matches Some(v) ==> v == b,
        s.stack == binary_operands(rest, a, b, imm),
    ensures
        run(s, arithmetic_ops(Operation::U32mul, op_mode, imm)) == done(
            restack(
                s,
                match op_mode {
                    U32OpMode::Wrapping => rest.push(Felt::of_int((a * b) % two_32())),
                    U32OpMode::Overflowing => rest.push(Felt::of_int((a * b) % two_32())).push(
                        Felt::of_int((a * b) / two_32()),
                    ),
                },
            ),
        ),
{
    let core = arithmetic_core(Operation::U32mul, op_mode);
    assert(arithmetic_ops(Operation::U32mul, op_mode, imm) =~= immediate_ops(imm) + core);
    lemma_immediate(s, rest, a, b, imm, core);
    let s0 = restack(s, rest.push(word(a)).push(word(b)));
    let low = Felt::of_int((a * b) % two_32());
    let high = Felt::of_int((a * b) / two_32());
    lemma_u32mul(s0, core, 0, rest, word(a), word(b));
    lemma_word_product(a, b);
    let s1 = restack(s, rest.push(low).push(high));
    match op_mode {
        U32OpMode::Wrapping => {
            lemma_drop(s1, core, 1, rest.push(low), high);
            lemma_finish(restack(s, rest.push(low)), core);
        },
        U32OpMode::Overflowing => {
            lemma_finish(s1, core);
        },
    }
}

// DIVISION
// ================================================================================================

/// The division that the three division instructions share leaves the
/// quotient and, on top of it, the remainder.
proof fn lemma_division(
    s: MachineState,
    rest: Seq<Felt>,
    a: u32,
    b: u32,
    imm: Option<u32>,
    tail: Seq<Operation>,
)
    requires
        imm matches Some(v) ==> v == b,
        b != 0,
        s.stack == binary_operands(rest, a, b, imm),
    ensures
        run(s, division_ops(imm) + tail) == run(
            restack(
                s,
                rest.push(Felt::of_int(a as int / b as int)).push(
                    Felt::of_int(a as int % b as int),
                ),
            ),
            tail,
        ),
{
    let core = seq![Operation::U32div];
    assert(division_ops(imm) + tail =~= immediate_ops(imm) + (core + tail));
    lemma_immediate(s, rest, a, b, imm, core + tail);
    let s0 = restack(s, rest.push(word(a)).push(word(b)));
    lemma_run_concat(s0, core, tail);
    lemma_u32div(s0, core, 0, rest, word(a), word(b));
    lemma_finish(
        restack(
            s,
            rest.push(Felt::of_int(a as int / b as int)).push(Felt::of_int(a as int % b as int)),
        ),
        core,
    );
}

/// A division by a zero that is on the stack stops the run.
proof fn lemma_division_by_zero(s: MachineState, rest: Seq<Felt>, a: Felt, tail: Seq<Operation>)
    requires
        s.stack == rest.push(a).push(Felt::of_int(0)),
    ensures
        run(s, division_ops(None) + tail) == stopped(s, ExecutionError::DivideByZero),
{
    let core = seq![Operation::U32div];
    assert(division_ops(None) =~= core);
    lemma_run_concat(s, core, tail);
    lemma_u32div_fails(s, core, 0, rest, a, Felt::of_int(0));
}

/// `u32div` leaves the quotient of its operands.
pub proof fn lemma_u32div_computes(
    s: MachineState,
    rest: Seq<Felt>,
    a: u32,
    b: u32,
    imm: Option<u32>,
)
    requires
        imm matches Some(v) ==> v == b,
        b != 0,
        s.stack == binary_operands(rest, a, b, imm),
    ensures
        run(s, u32div_ops(imm)) == done(restack(s, rest.push(Felt::of_int(a as int / b as int)))),
{
    let tail = seq![Operation::Drop];
    let quotient = Felt::of_int(a as int / b as int);
    let remainder = Felt::of_int(a as int % b as int);
    assert(u32div_ops(imm) =~= division_ops(imm) + tail);
    lemma_division(s, rest, a, b, imm, tail);
    lemma_drop(
        restack(s, rest.push(quotient).push(remainder)),
        tail,
        0,
        rest.push(quotient),
        remainder,
    );
    lemma_finish(restack(s, rest.push(quotient)), tail);
}

/// `u32mod` leaves the remainder of its operands.
pub proof fn lemma_u32mod_computes(
    s: MachineState,
    rest: Seq<Felt>,
    a: u32,
    b: u32,
    imm: Option<u32>,
)
    requires
        imm matches Some(v) ==> v == b,
        b != 0,
        s.stack == binary_operands(rest, a, b, imm),
    ensures
        run(s, u32mod_ops(imm)) == done(restack(s, rest.push(Felt::of_int(a as int % b as int)))),
{
    let tail = seq![Operation::Swap, Operation::Drop];
    let quotient = Felt::of_int(a as int / b as int);
    let remainder = Felt::of_int(a as int % b as int);
    lemma_division(s, rest, a, b, imm, tail);
    lemma_swap(restack(s, rest.push(quotient).push(remainder)), tail, 0, rest, quotient, remainder);
    lemma_drop(
        restack(s, rest.push(remainder).push(quotient)),
        tail,
        1,
        rest.push(remainder),
        quotient,
    );
    lemma_finish(restack(s, rest.push(remainder)), tail);
}

/// `u32divmod` leaves the quotient of its operands and, on top of it, the
/// remainder.
pub proof fn lemma_u32divmod_computes(
    s: MachineState,
    rest: Seq<Felt>,
    a: u32,
    b: u32,
    imm: Option<u32>,
)
    requires
        imm matches Some(v) ==> v == b,
        b != 0,
        s.stack == binary_operands(rest, a, b, imm),
    ensures
        run(s, division_ops(imm)) == done(
            restack(
                s,
                rest.push(Felt::of_int(a as int / b as int)).push(
                    Felt::of_int(a as int % b as int),
                ),
            ),
        ),
{
    let tail = Seq::<Operation>::empty();
    assert(division_ops(imm) =~= division_ops(imm) + tail);
    lemma_division(s, rest, a, b, imm, tail);
    lemma_run_empty(
        restack(
            s,
            rest.push(Felt::of_int(a as int / b as int)).push(Felt::of_int(a as int % b as int)),
        ),
    );
}

/// Each of the three division instructions, compiled without an immediate,
/// stops the run where it finds the divisor zero on the stack.
pub proof fn lemma_division_by_zero_stops(s: MachineState, rest: Seq<Felt>, a: Felt)
    requires
        s.stack == rest.push(a).push(Felt::of_int(0)),
    ensures
        run(s, u32div_ops(None)) == stopped(s, ExecutionError::DivideByZero),
        run(s, u32mod_ops(None)) == stopped(s, ExecutionError::DivideByZero),
        run(s, division_ops(None)) == stopped(s, ExecutionError::DivideByZero),
{
    assert(u32div_ops(None) =~= division_ops(None) + seq![Operation::Drop]);
    assert(division_ops(None) =~= division_ops(None) + Seq::<Operation>::empty());
    lemma_division_by_zero(s, rest, a, seq![Operation::Drop]);
    lemma_division_by_zero(s, rest, a, seq![Operation::Swap, Operation::Drop]);
    lemma_division_by_zero(s, rest, a, Seq::<Operation>::empty());
}

// NOT
// ================================================================================================

/// `u32not` leaves its operand with all 32 bits flipped.
pub proof fn lemma_u32not_computes(s: MachineState, rest: Seq<Felt>, a: u32)
    requires
        s.stack == rest.push(word(a)),
    ensures
        run(s, u32not_ops()) == done(restack(s, rest.push(word(!a)))),
{
    let ops = u32not_ops();
    let ones = Felt::of_int(0xFFFF_FFFF);
    let zero = Felt::of_int(0);
    lemma_push(s, ops, 0, rest.push(word(a)), ones);
    lemma_u32assert2(restack(s, rest.push(word(a)).push(ones)), ops, 1, rest, word(a), ones, zero);
    lemma_swap(restack(s, rest.push(word(a)).push(ones)), ops, 2, rest, word(a), ones);
    lemma_u32sub(restack(s, rest.push(ones).push(word(a))), ops, 3, rest, ones, word(a));
    assert(0xFFFF_FFFFu32 - a == !a) by (bit_vector);
    let flipped = word(!a);
    assert(low_limb(ones.as_int() - word(a).as_int()) == flipped);
    lemma_drop(
        restack(s, rest.push(flipped).push(flag(false))),
        ops,
        4,
        rest.push(flipped),
        flag(false),
    );
    lemma_finish(restack(s, rest.push(flipped)), ops);
}

/// `u32not` stops the run on an operand that is not below `2^32`.
pub proof fn lemma_u32not_checks(s: MachineState, rest: Seq<Felt>, a: Felt)
    requires
        s.stack == rest.push(a),
        !is_u32(a),
    ensures
        run(s, u32not_ops()).error == Some(ExecutionError::NotU32Value(a, Felt::of_int(0))),
{
    let ops = u32not_ops();
    let ones = Felt::of_int(0xFFFF_FFFF);
    lemma_push(s, ops, 0, rest.push(a), ones);
    lemma_u32assert2_fails_second(
        restack(s, rest.push(a).push(ones)),
        ops,
        1,
        rest,
        a,
        ones,
        Felt::of_int(0),
    );
}

// COMPARISONS
// ================================================================================================

/// The operations of `u32lt` leave the flag of the first operand being below
/// the second.
proof fn lemma_lt_at(s: MachineState, ops: Seq<Operation>, at: int, rest: Seq<Felt>, a: u32, b: u32)
    requires
        0 <= at,
        at + 5 <= ops.len(),
        ops.subrange(at, at + 5) == lt_ops(),
        s.stack == rest.push(word(a)).push(word(b)),
    ensures
        run_from(s, ops, at) == run_from(restack(s, rest.push(flag(a < b))), ops, at + 5),
{
    assert forall|i: int| 0 <= i < 5 implies ops[at + i] == lt_ops()[i] by {
        assert(ops.subrange(at, at + 5)[i] == ops[at + i]);
    }
    let low = low_limb(a - b);
    let borrow = flag(a < b);
    lemma_u32sub(s, ops, at, rest, word(a), word(b));
    lemma_swap(restack(s, rest.push(low).push(borrow)), ops, at + 1, rest, low, borrow);
    lemma_drop(restack(s, rest.push(borrow).push(low)), ops, at + 2, rest.push(borrow), low);
    lemma_eqz(restack(s, rest.push(borrow)), ops, at + 3, rest, borrow);
    lemma_not(restack(s, rest.push(flag(!(a < b)))), ops, at + 4, rest, flag(!(a < b)));
}

/// `u32lt` leaves one if the first operand is below the second, and zero
/// otherwise.
pub proof fn lemma_u32lt_computes(s: MachineState, rest: Seq<Felt>, a: u32, b: u32)
    requires
        s.stack == rest.push(word(a)).push(word(b)),
    ensures
        run(s, lt_ops()) == done(restack(s, rest.push(flag(a < b)))),
{
    let ops = lt_ops();
    assert(ops.subrange(0, 5) =~= lt_ops());
    lemma_lt_at(s, ops, 0, rest, a, b);
    lemma_finish(restack(s, rest.push(flag(a < b))), ops);
}

/// `u32lte` leaves one if the first operand is at most the second, and zero
/// otherwise.
pub proof fn lemma_u32lte_computes(s: MachineState, rest: Seq<Felt>, a: u32, b: u32)
    requires
        s.stack == rest.push(word(a)).push(word(b)),
    ensures
        run(s, u32lte_ops()) == done(restack(s, rest.push(flag(a <= b)))),
{
    let ops = u32lte_ops();
    assert(ops.subrange(1, 6) =~= lt_ops());
    lemma_swap(s, ops, 0, rest, word(a), word(b));
    lemma_lt_at(restack(s, rest.push(word(b)).push(word(a))), ops, 1, rest, b, a);
    lemma_not(restack(s, rest.push(flag(b < a))), ops, 6, rest, flag(b < a));
    lemma_finish(restack(s, rest.push(flag(a <= b))), ops);
}

/// `u32gt` leaves one if the first operand is above the second, and zero
/// otherwise.
pub proof fn lemma_u32gt_computes(s: MachineState, rest: Seq<Felt>, a: u32, b: u32)
    requires
        s.stack == rest.push(word(a)).push(word(b)),
    ensures
        run(s, u32gt_ops()) == done(restack(s, rest.push(flag(a > b)))),
{
    let ops = u32gt_ops();
    assert(ops.subrange(1, 6) =~= lt_ops());
    lemma_swap(s, ops, 0, rest, word(a), word(b));
    lemma_lt_at(restack(s, rest.push(word(b)).push(word(a))), ops, 1, rest, b, a);
    lemma_finish(restack(s, rest.push(flag(a > b))), ops);
}

/// `u32gte` leaves one if the first operand is at least the second, and zero
/// otherwise.
pub proof fn lemma_u32gte_computes(s: MachineState, rest: Seq<Felt>, a: u32, b: u32)
    requires
        s.stack == rest.push(word(a)).push(word(b)),
    ensures
        run(s, u32gte_ops()) == done(restack(s, rest.push(flag(a >= b)))),
{
    let ops = u32gte_ops();
    assert(ops.subrange(0, 5) =~= lt_ops());
    lemma_lt_at(s, ops, 0, rest, a, b);
    lemma_not(restack(s, rest.push(flag(a < b))), ops, 5, rest, flag(a < b));
    lemma_finish(restack(s, rest.push(flag(a >= b))), ops);
}

// MINIMUM AND MAXIMUM
// ================================================================================================

/// The smaller of two values.
pub open spec fn min_u32(a: u32, b: u32) -> u32 {
    if a <= b {
        a
    } else {
        b
    }
}

/// The larger of two values.
pub open spec fn max_u32(a: u32, b: u32) -> u32 {
    if a <= b {
        b
    } else {
        a
    }
}

/// The operations that order two operands leave the smaller one and, on top
/// of it, the larger one.
proof fn lemma_max_and_min(s: MachineState, ops: Seq<Operation>, rest: Seq<Felt>, a: u32, b: u32)
    requires
        7 <= ops.len(),
        ops.subrange(0, 7) == max_and_min_ops(),
        s.stack == rest.push(word(a)).push(word(b)),
    ensures
        run_from(s, ops, 0) == run_from(
            restack(s, rest.push(word(min_u32(a, b))).push(word(max_u32(a, b)))),
            ops,
            7,
        ),
{
    assert forall|i: int| 0 <= i < 7 implies ops[i] == max_and_min_ops()[i] by {
        assert(ops.subrange(0, 7)[i] == ops[i]);
    }
    let (x, y) = (word(a), word(b));
    let low = low_limb(a - b);
    let borrow = flag(a < b);
    let both = rest.push(x).push(y);
    lemma_dup1(s, ops, 0, rest, x, y);
    lemma_dup1(restack(s, both.push(x)), ops, 1, rest.push(x), y, x);
    lemma_u32sub(restack(s, both.push(x).push(y)), ops, 2, both, x, y);
    lemma_swap(restack(s, both.push(low).push(borrow)), ops, 3, both, low, borrow);
    lemma_drop(restack(s, both.push(borrow).push(low)), ops, 4, both.push(borrow), low);
    lemma_eqz(restack(s, both.push(borrow)), ops, 5, both, borrow);
    lemma_cswap(restack(s, both.push(flag(a >= b))), ops, 6, rest, x, y, flag(a >= b));
}

/// `u32min` leaves the smaller of its operands.
pub proof fn lemma_u32min_computes(s: MachineState, rest: Seq<Felt>, a: u32, b: u32)
    requires
        s.stack == rest.push(word(a)).push(word(b)),
    ensures
        run(s, u32min_ops()) == done(restack(s, rest.push(word(min_u32(a, b))))),
{
    let ops = u32min_ops();
    let (low, high) = (word(min_u32(a, b)), word(max_u32(a, b)));
    assert(ops.subrange(0, 7) =~= max_and_min_ops());
    lemma_max_and_min(s, ops, rest, a, b);
    lemma_drop(restack(s, rest.push(low).push(high)), ops, 7, rest.push(low), high);
    lemma_finish(restack(s, rest.push(low)), ops);
}

/// `u32max` leaves the larger of its operands.
pub proof fn lemma_u32max_computes(s: MachineState, rest: Seq<Felt>, a: u32, b: u32)
    requires
        s.stack == rest.push(word(a)).push(word(b)),
    ensures
        run(s, u32max_ops()) == done(restack(s, rest.push(word(max_u32(a, b))))),
{
    let ops = u32max_ops();
    let (low, high) = (word(min_u32(a, b)), word(max_u32(a, b)));
    assert(ops.subrange(0, 7) =~= max_and_min_ops());
    lemma_max_and_min(s, ops, rest, a, b);
    lemma_swap(restack(s, rest.push(low).push(high)), ops, 7, rest, low, high);
    lemma_drop(restack(s, rest.push(high).push(low)), ops, 8, rest.push(high), low);
    lemma_finish(restack(s, rest.push(high)), ops);
}

// TESTS OF WORDS
// ================================================================================================

/// The stack with the word of `d`, `c`, `b` and `a` on top of `rest`, `a`
/// being on top.
pub open spec fn with_word(rest: Seq<Felt>, d: Felt, c: Felt, b: Felt, a: Felt) -> Seq<Felt> {
    rest.push(d).push(c).push(b).push(a)
}

/// The four operations that follow the copy of an element in `u32testw`
/// replace the copy by the flag of its being below `2^32`.
proof fn lemma_test_element(s: MachineState, ops: Seq<Operation>, at: int, base: Seq<Felt>, x: Felt)
    requires
        0 <= at,
        at + 4 <= ops.len(),
        ops[at] == Operation::U32split,
        ops[at + 1] == Operation::Swap,
        ops[at + 2] == Operation::Drop,
        ops[at + 3] == Operation::Eqz,
        s.stack == base.push(x),
        x.is_canonical(),
    ensures
        run_from(s, ops, at) == run_from(restack(s, base.push(flag(is_u32(x)))), ops, at + 4),
{
    let low = low_limb(x.as_int() as int);
    let high = high_limb(x.as_int() as int);
    lemma_u32split(s, ops, at, base, x);
    lemma_swap(restack(s, base.push(low).push(high)), ops, at + 1, base, low, high);
    lemma_drop(restack(s, base.push(high).push(low)), ops, at + 2, base.push(high), low);
    lemma_eqz(restack(s, base.push(high)), ops, at + 3, base, high);
    assert(high.as_int() == x.as_int() as int / two_32());
}

/// `u32testw` leaves the word on the stack and pushes one if all four of its
/// elements are below `2^32`, and zero otherwise.
pub proof fn lemma_u32testw_computes(
    s: MachineState,
    rest: Seq<Felt>,
    d: Felt,
    c: Felt,
    b: Felt,
    a: Felt,
)
    requires
        s.stack == with_word(rest, d, c, b, a),
        d.is_canonical(),
        c.is_canonical(),
        b.is_canonical(),
        a.is_canonical(),
    ensures
        run(s, u32testw_ops()) == done(
            restack(
                s,
                with_word(rest, d, c, b, a).push(
                    flag(is_u32(a) && is_u32(b) && is_u32(c) && is_u32(d)),
                ),
            ),
        ),
{
    let ops = u32testw_ops();
    let w = with_word(rest, d, c, b, a);
    let (fd, fc, fb, fa) = (flag(is_u32(d)), flag(is_u32(c)), flag(is_u32(b)), flag(is_u32(a)));
    lemma_dup3(s, ops, 0, rest, d, c, b, a);
    lemma_test_element(restack(s, w.push(d)), ops, 1, w, d);
    lemma_dup3(restack(s, w.push(fd)), ops, 5, rest.push(d), c, b, a, fd);
    lemma_test_element(restack(s, w.push(fd).push(c)), ops, 6, w.push(fd), c);
    lemma_and(restack(s, w.push(fd).push(fc)), ops, 10, w, fd, fc);
    let f2 = flag(is_u32(c) && is_u32(d));
    lemma_dup2(restack(s, w.push(f2)), ops, 11, rest.push(d).push(c), b, a, f2);
    lemma_test_element(restack(s, w.push(f2).push(b)), ops, 12, w.push(f2), b);
    lemma_and(restack(s, w.push(f2).push(fb)), ops, 16, w, f2, fb);
    let f3 = flag(is_u32(b) && is_u32(c) && is_u32(d));
    lemma_dup1(restack(s, w.push(f3)), ops, 17, rest.push(d).push(c).push(b), a, f3);
    lemma_test_element(restack(s, w.push(f3).push(a)), ops, 18, w.push(f3), a);
    lemma_and(restack(s, w.push(f3).push(fa)), ops, 22, w, f3, fa);
    lemma_finish(restack(s, w.push(flag(is_u32(a) && is_u32(b) && is_u32(c) && is_u32(d)))), ops);
}

/// `u32assertw` leaves a machine as it is if all four elements of the word
/// on top of its stack are below `2^32`.
pub proof fn lemma_u32assertw_passes(
    s: MachineState,
    rest: Seq<Felt>,
    d: Felt,
    c: Felt,
    b: Felt,
    a: Felt,
    err_code: Felt,
)
    requires
        s.stack == with_word(rest, d, c, b, a),
        is_u32(a) && is_u32(b) && is_u32(c) && is_u32(d),
    ensures
        run(s, u32assertw_ops(err_code)) == done(s),
{
    let ops = u32assertw_ops(err_code);
    lemma_u32assert2(s, ops, 0, rest.push(d).push(c), b, a, err_code);
    lemma_movup3(s, ops, 1, rest, d, c, b, a);
    lemma_movup3(restack(s, rest.push(c).push(b).push(a).push(d)), ops, 2, rest, c, b, a, d);
    let turned = restack(s, rest.push(b).push(a).push(d).push(c));
    lemma_u32assert2(turned, ops, 3, rest.push(b).push(a), d, c, err_code);
    lemma_movup3(turned, ops, 4, rest, b, a, d, c);
    lemma_movup3(restack(s, rest.push(a).push(d).push(c).push(b)), ops, 5, rest, a, d, c, b);
    assert(restack(s, with_word(rest, d, c, b, a)) == s);
    lemma_finish(s, ops);
}

/// The first of the elements `a`, `b`, `c` and `d`, in this order, that is
/// not below `2^32`; `d` if there is none.
pub open spec fn first_not_u32(d: Felt, c: Felt, b: Felt, a: Felt) -> Felt {
    if !is_u32(a) {
        a
    } else if !is_u32(b) {
        b
    } else if !is_u32(c) {
        c
    } else {
        d
    }
}

/// `u32assertw` stops the run, with its error code, on the first element of
/// the word, from the top, that is not below `2^32`.
pub proof fn lemma_u32assertw_fails(
    s: MachineState,
    rest: Seq<Felt>,
    d: Felt,
    c: Felt,
    b: Felt,
    a: Felt,
    err_code: Felt,
)
    requires
        s.stack == with_word(rest, d, c, b, a),
        !(is_u32(a) && is_u32(b) && is_u32(c) && is_u32(d)),
    ensures
        run(s, u32assertw_ops(err_code)).error == Some(
            ExecutionError::NotU32Value(first_not_u32(d, c, b, a), err_code),
        ),
{
    let ops = u32assertw_ops(err_code);
    if !is_u32(a) {
        lemma_u32assert2_fails_top(s, ops, 0, rest.push(d).push(c), b, a, err_code);
    } else if !is_u32(b) {
        lemma_u32assert2_fails_second(s, ops, 0, rest.push(d).push(c), b, a, err_code);
    } else {
        lemma_u32assert2(s, ops, 0, rest.push(d).push(c), b, a, err_code);
        lemma_movup3(s, ops, 1, rest, d, c, b, a);
        lemma_movup3(restack(s, rest.push(c).push(b).push(a).push(d)), ops, 2, rest, c, b, a, d);
        let turned = restack(s, rest.push(b).push(a).push(d).push(c));
        if !is_u32(c) {
            lemma_u32assert2_fails_top(turned, ops, 3, rest.push(b).push(a), d, c, err_code);
        } else {
            lemma_u32assert2_fails_second(turned, ops, 3, rest.push(b).push(a), d, c, err_code);
        }
    }
}

// POWERS OF TWO
// ================================================================================================

/// What is left of the exponent `e` after `rounds` rounds of
/// square-and-multiply.
pub open spec fn exp_after(e: Felt, rounds: nat) -> Felt
    decreases rounds,
{
    if rounds == 0 {
        e
    } else {
        Felt::of_int(exp_after(e, (rounds - 1) as nat).as_int() as int / 2)
    }
}

/// The base after `rounds` rounds of square-and-multiply that began with the
/// base two.
pub open spec fn base_after(rounds: nat) -> Felt
    decreases rounds,
{
    if rounds == 0 {
        Felt::of_int(2)
    } else {
        base_after((rounds - 1) as nat).times(base_after((rounds - 1) as nat))
    }
}

/// The accumulator after `rounds` rounds of square-and-multiply on the
/// exponent `e` that began with the accumulator one and the base two.
pub open spec fn acc_after(e: Felt, rounds: nat) -> Felt
    decreases rounds,
{
    if rounds == 0 {
        Felt::of_int(1)
    } else if exp_after(e, (rounds - 1) as nat).as_int() % 2 == 1 {
        acc_after(e, (rounds - 1) as nat).times(base_after((rounds - 1) as nat))
    } else {
        acc_after(e, (rounds - 1) as nat)
    }
}

/// The bit that round `rounds` of square-and-multiply read off the exponent
/// `e`; zero before the first round.
pub open spec fn bit_after(e: Felt, rounds: nat) -> Felt
    decreases rounds,
{
    if rounds == 0 {
        Felt::of_int(0)
    } else {
        Felt::of_int(exp_after(e, (rounds - 1) as nat).as_int() as int % 2)
    }
}

/// The four values that square-and-multiply works on, after `rounds` rounds,
/// on top of `rest`.
pub open spec fn expacc_stack(rest: Seq<Felt>, e: Felt, rounds: nat) -> Seq<Felt> {
    rest.push(exp_after(e, rounds)).push(acc_after(e, rounds)).push(base_after(rounds)).push(
        bit_after(e, rounds),
    )
}

/// Bit `r` of `n` stands between the bits below it and those above it.
proof fn lemma_split_bit(n: u64, r: nat)
    requires
        r <= 5,
    ensures
        n as int / (2 * pow2(r) as int) == (n as int / pow2(r) as int) / 2,
        n as int % (2 * pow2(r) as int) == n as int % pow2(r) as int + pow2(r) * ((n as int / pow2(
            r,
        ) as int) % 2),
{
    lemma2_to64();
    if r == 0 {
        assert(n / 2 == (n / 1) / 2 && n % 2 == n % 1 + 1 * ((n / 1) % 2)) by (bit_vector);
    } else if r == 1 {
        assert(n / 4 == (n / 2) / 2 && n % 4 == n % 2 + 2 * ((n / 2) % 2)) by (bit_vector);
    } else if r == 2 {
        assert(n / 8 == (n / 4) / 2 && n % 8 == n % 4 + 4 * ((n / 4) % 2)) by (bit_vector);
    } else if r == 3 {
        assert(n / 16 == (n / 8) / 2 && n % 16 == n % 8 + 8 * ((n / 8) % 2)) by (bit_vector);
    } else if r == 4 {
        assert(n / 32 == (n / 16) / 2 && n % 32 == n % 16 + 16 * ((n / 16) % 2)) by (bit_vector);
    } else {
        assert(n / 64 == (n / 32) / 2 && n % 64 == n % 32 + 32 * ((n / 32) % 2)) by (bit_vector);
    }
}

/// After `rounds` rounds, up to six, the exponent has lost its `rounds` low
/// bits, and the accumulator is two to the power of these bits.
proof fn lemma_rounds(e: Felt, rounds: nat)
    requires
        e.is_canonical(),
        rounds <= 6,
    ensures
        exp_after(e, rounds).as_int() == e.as_int() as int / pow2(rounds) as int,
        rounds <= 5 ==> base_after(rounds) == Felt::of_int(pow2(pow2(rounds)) as int),
        acc_after(e, rounds) == Felt::of_int(
            pow2((e.as_int() as int % pow2(rounds) as int) as nat) as int,
        ),
        pow2((e.as_int() as int % pow2(rounds) as int) as nat) < pow2(pow2(rounds)),
    decreases rounds,
{
    lemma2_to64();
    lemma2_to64_rest();
    let n = e.as_int() as int;
    if rounds == 0 {
        assert(n % 1 == 0);
    } else {
        let r = (rounds - 1) as nat;
        lemma_rounds(e, r);
        let width = pow2(r) as int;
        let low = (n % width) as nat;
        let bit = (n / width) % 2;
        assert(pow2(rounds) == 2 * width);
        lemma_split_bit(e.as_int(), r);
        lemma_pow2_adds(low, pow2(r));
        lemma_pow2_adds(pow2(r), pow2(r));
        assert(pow2(pow2(rounds)) == pow2(pow2(r)) * pow2(pow2(r))) by {
            assert(pow2(rounds) == pow2(r) + pow2(r));
        }
        let acc = pow2(low) as int;
        let base = pow2(pow2(r)) as int;
        assert(base <= 0x1_0000_0000);
        assert(acc < base);
        assert(acc * base < base * base) by (nonlinear_arith)
            requires
                0 <= acc < base,
        ;
        assert(base * base <= 0x1_0000_0000 * 0x1_0000_0000) by (nonlinear_arith)
            requires
                0 <= base <= 0x1_0000_0000,
        ;
        assert(2 * (acc * base) <= base * base) by (nonlinear_arith)
            requires
                0 <= acc,
                2 * acc <= base,
                0 <= base,
        {
        }
        assert(width * bit == (if bit == 1 {
            width
        } else {
            0
        })) by (nonlinear_arith)
            requires
                bit == 0 || bit == 1,
        ;
        if bit == 1 {
            assert((n % (2 * width)) as nat == low + pow2(r));
            assert(pow2((n % (2 * width)) as nat) == acc * base);
            assert(Felt::of_int(acc).times(Felt::of_int(base)) == Felt::of_int(acc * base));
        } else {
            assert(acc < base * base) by (nonlinear_arith)
                requires
                    0 <= acc < base,
                    1 <= base,
            ;
        }
        if rounds <= 5 {
            assert(Felt::of_int(base).times(Felt::of_int(base)) == Felt::of_int(base * base));
        }
    }
}

/// The operations that compute a power of two replace an exponent below 64
/// by two to its power.
proof fn lemma_pow2_at(s: MachineState, ops: Seq<Operation>, at: int, rest: Seq<Felt>, e: Felt)
    requires
        0 <= at,
        at + 16 <= ops.len(),
        ops.subrange(at, at + 16) == pow2_ops(),
        s.stack == rest.push(e),
        e.as_int() < 64,
    ensures
        run_from(s, ops, at) == run_from(
            restack(s, rest.push(Felt::of_int(pow2(e.as_int() as nat) as int))),
            ops,
            at + 16,
        ),
{
    lemma_pow2_rounds(s, ops, at, rest, e);
    lemma_rounds(e, 6);
    lemma2_to64();
    let left = exp_after(e, 6);
    let acc = acc_after(e, 6);
    assert(left.as_int() == 0);
    assert(e.as_int() as int % 64 == e.as_int());
    lemma_assert(
        restack(s, rest.push(acc).push(flag(true))),
        ops,
        at + 15,
        rest.push(acc),
        flag(true),
        Felt::of_int(0),
    );
}

/// The operations that compute a power of two stop the run, with error code
/// zero, on an exponent of 64 or more.
proof fn lemma_pow2_fails_at(
    s: MachineState,
    ops: Seq<Operation>,
    at: int,
    rest: Seq<Felt>,
    e: Felt,
)
    requires
        0 <= at,
        at + 16 <= ops.len(),
        ops.subrange(at, at + 16) == pow2_ops(),
        s.stack == rest.push(e),
        e.is_canonical(),
        64 <= e.as_int(),
    ensures
        run_from(s, ops, at).error == Some(ExecutionError::FailedAssertion(Felt::of_int(0))),
{
    lemma_pow2_rounds(s, ops, at, rest, e);
    lemma_rounds(e, 6);
    lemma2_to64();
    let left = exp_after(e, 6);
    let acc = acc_after(e, 6);
    assert(left.as_int() != 0);
    lemma_assert_fails(
        restack(s, rest.push(acc).push(flag(false))),
        ops,
        at + 15,
        rest.push(acc),
        flag(false),
        Felt::of_int(0),
    );
}

/// The first fifteen of the operations that compute a power of two leave the
/// accumulator of six rounds of square-and-multiply and, on top of it, the
/// flag of nothing being left of the exponent.
proof fn lemma_pow2_rounds(s: MachineState, ops: Seq<Operation>, at: int, rest: Seq<Felt>, e: Felt)
    requires
        0 <= at,
        at + 16 <= ops.len(),
        ops.subrange(at, at + 16) == pow2_ops(),
        s.stack == rest.push(e),
    ensures
        run_from(s, ops, at) == run_from(
            restack(s, rest.push(acc_after(e, 6)).push(flag(exp_after(e, 6).as_int() == 0))),
            ops,
            at + 15,
        ),
        ops[at + 15] == Operation::Assert(Felt::of_int(0)),
{
    assert forall|i: int| 0 <= i < 16 implies ops[at + i] == pow2_ops()[i] by {
        assert(ops.subrange(at, at + 16)[i] == ops[at + i]);
    }
    let (zero, one, two) = (Felt::of_int(0), Felt::of_int(1), Felt::of_int(2));
    lemma_push(s, ops, at, rest.push(e), two);
    lemma_pad(restack(s, rest.push(e).push(two)), ops, at + 1, rest.push(e).push(two));
    lemma_incr(
        restack(s, rest.push(e).push(two).push(zero)),
        ops,
        at + 2,
        rest.push(e).push(two),
        zero,
    );
    lemma_swap(restack(s, rest.push(e).push(two).push(one)), ops, at + 3, rest.push(e), two, one);
    lemma_pad(
        restack(s, rest.push(e).push(one).push(two)),
        ops,
        at + 4,
        rest.push(e).push(one).push(two),
    );
    assert(rest.push(e).push(one).push(two).push(zero) == expacc_stack(rest, e, 0));
    lemma_expacc_round(s, ops, at + 5, rest, e, 0);
    lemma_expacc_round(s, ops, at + 6, rest, e, 1);
    lemma_expacc_round(s, ops, at + 7, rest, e, 2);
    lemma_expacc_round(s, ops, at + 8, rest, e, 3);
    lemma_expacc_round(s, ops, at + 9, rest, e, 4);
    lemma_expacc_round(s, ops, at + 10, rest, e, 5);
    let (left, acc, base, bit) = (exp_after(e, 6), acc_after(e, 6), base_after(6), bit_after(e, 6));
    lemma_drop(
        restack(s, expacc_stack(rest, e, 6)),
        ops,
        at + 11,
        rest.push(left).push(acc).push(base),
        bit,
    );
    lemma_drop(
        restack(s, rest.push(left).push(acc).push(base)),
        ops,
        at + 12,
        rest.push(left).push(acc),
        base,
    );
    lemma_swap(restack(s, rest.push(left).push(acc)), ops, at + 13, rest, left, acc);
    lemma_eqz(restack(s, rest.push(acc).push(left)), ops, at + 14, rest.push(acc), left);
}

/// One round of square-and-multiply within a run.
proof fn lemma_expacc_round(
    s: MachineState,
    ops: Seq<Operation>,
    at: int,
    rest: Seq<Felt>,
    e: Felt,
    rounds: nat,
)
    requires
        0 <= at < ops.len(),
        ops[at] == Operation::Expacc,
    ensures
        run_from(restack(s, expacc_stack(rest, e, rounds)), ops, at) == run_from(
            restack(s, expacc_stack(rest, e, rounds + 1)),
            ops,
            at + 1,
        ),
{
    lemma_expacc(
        restack(s, expacc_stack(rest, e, rounds)),
        ops,
        at,
        rest,
        exp_after(e, rounds),
        acc_after(e, rounds),
        base_after(rounds),
        bit_after(e, rounds),
    );
}

/// The operations that compute a power of two replace an exponent below 64
/// by two to its power.
pub proof fn lemma_pow2_computes(s: MachineState, rest: Seq<Felt>, e: Felt)
    requires
        s.stack == rest.push(e),
        e.as_int() < 64,
    ensures
        run(s, pow2_ops()) == done(
            restack(s, rest.push(Felt::of_int(pow2(e.as_int() as nat) as int))),
        ),
{
    let ops = pow2_ops();
    assert(ops.subrange(0, 16) =~= pow2_ops());
    lemma_pow2_at(s, ops, 0, rest, e);
    lemma_finish(restack(s, rest.push(Felt::of_int(pow2(e.as_int() as nat) as int))), ops);
}

/// The operations that compute a power of two stop the run, with error code
/// zero, on an exponent of 64 or more.
pub proof fn lemma_pow2_checks(s: MachineState, rest: Seq<Felt>, e: Felt)
    requires
        s.stack == rest.push(e),
        e.is_canonical(),
        64 <= e.as_int(),
    ensures
        run(s, pow2_ops()).error == Some(ExecutionError::FailedAssertion(Felt::of_int(0))),
{
    let ops = pow2_ops();
    assert(ops.subrange(0, 16) =~= pow2_ops());
    lemma_pow2_fails_at(s, ops, 0, rest, e);
}

// SHIFTS AND ROTATIONS
// ================================================================================================

/// `x` rotated to the left by `amount` bits, the amount taken modulo 32.
pub open spec fn rotate_left(x: u32, amount: u32) -> u32 {
    if amount % 32 == 0 {
        x
    } else {
        (x << (amount % 32)) | (x >> ((32 - amount % 32) as u32))
    }
}

/// `x` rotated to the right by `amount` bits, the amount taken modulo 32.
pub open spec fn rotate_right(x: u32, amount: u32) -> u32 {
    if amount % 32 == 0 {
        x
    } else {
        (x >> (amount % 32)) | (x << ((32 - amount % 32) as u32))
    }
}

/// The stack that a shift or rotation finds: the value on top of `rest` and,
/// unless the amount is an immediate, the amount on top of the value.
pub open spec fn shift_operands(rest: Seq<Felt>, x: u32, amount: u8, imm: Option<u8>) -> Seq<Felt> {
    match imm {
        Some(_) => rest.push(word(x)),
        None => rest.push(word(x)).push(word(amount as u32)),
    }
}

/// The element two to the power `e`.
pub open spec fn power_of_two(e: nat) -> Felt {
    Felt::of_int(pow2(e) as int)
}

/// The product of a 32-bit value and a power of two up to `2^32` is below the
/// modulus, and is the value shifted to the left in 64 bits.
proof fn lemma_shifted(x: u32, m: nat)
    requires
        m <= 32,
    ensures
        power_of_two(m).as_int() == pow2(m),
        0 < pow2(m) <= 0x1_0000_0000,
        word(x).times(power_of_two(m)).as_int() == x * pow2(m),
        x * pow2(m) == (x as u64) << (m as u64),
{
    lemma2_to64();
    lemma_pow2_pos(m);
    if m < 32 {
        lemma_pow2_strictly_increases(m, 32);
    }
    let p = pow2(m) as int;
    assert(0 <= x * p <= 0xFFFF_FFFF * 0x1_0000_0000) by (nonlinear_arith)
        requires
            0 <= x <= 0xFFFF_FFFF,
            0 < p <= 0x1_0000_0000,
    ;
    lemma_u64_shl_is_mul(x as u64, m as u64);
}

/// Rotating to the left and then to the right by one amount gives back the
/// value.
pub proof fn lemma_rotate_round_trip(x: u32, amount: u32)
    ensures
        rotate_right(rotate_left(x, amount), amount) == x,
        rotate_left(rotate_right(x, amount), amount) == x,
{
    let k = amount % 32;
    if k != 0 {
        let back = (32 - k) as u32;
        assert(0 < k < 32 && back == 32 - k ==> (((x << k) | (x >> back)) >> k) | (((x << k) | (x
            >> back)) << back) == x) by (bit_vector);
        assert(0 < k < 32 && back == 32 - k ==> (((x >> k) | (x << back)) << k) | (((x >> k) | (x
            << back)) >> back) == x) by (bit_vector);
    }
}

/// The operations that put the power of two of an amount on the stack leave
/// it on top of the value.
proof fn lemma_pow2_operand(
    s: MachineState,
    rest: Seq<Felt>,
    x: u32,
    amount: u8,
    imm: Option<u8>,
)
    requires
        amount <= 31,
        imm matches Some(v) ==> v == amount && v != 0,
        s.stack == shift_operands(rest, x, amount, imm),
    ensures
        run(s, pow2_operand_ops(imm)) == done(
            restack(s, rest.push(word(x)).push(power_of_two(amount as nat))),
        ),
{
    let ops = pow2_operand_ops(imm);
    let after = restack(s, rest.push(word(x)).push(power_of_two(amount as nat)));
    match imm {
        Some(_) => {
            lemma_push(s, ops, 0, rest.push(word(x)), power_of_two(amount as nat));
            lemma_finish(after, ops);
        },
        None => {
            lemma_pow2_computes(s, rest.push(word(x)), word(amount as u32));
        },
    }
}

/// `u32shl` leaves the value shifted to the left by the amount, which is at
/// most 31; the bits that leave the low 32 are lost.
pub proof fn lemma_u32shl_computes(
    s: MachineState,
    rest: Seq<Felt>,
    x: u32,
    amount: u8,
    imm: Option<u8>,
)
    requires
        amount <= 31,
        imm matches Some(v) ==> v == amount,
        s.stack == shift_operands(rest, x, amount, imm),
    ensures
        run(s, u32shl_ops(imm)) == done(restack(s, rest.push(word(x << (amount as u32))))),
{
    let ops = u32shl_ops(imm);
    let k = amount as u32;
    if imm == Some(0u8) {
        assert(x << 0u32 == x) by (bit_vector);
        lemma_noop(s, ops, 0);
        lemma_finish(s, ops);
    } else {
        let tail = seq![Operation::U32mul, Operation::Drop];
        lemma_run_concat(s, pow2_operand_ops(imm), tail);
        lemma_pow2_operand(s, rest, x, amount, imm);
        let factor = power_of_two(amount as nat);
        let s1 = restack(s, rest.push(word(x)).push(factor));
        lemma_shifted(x, amount as nat);
        let p = (x as u64) << (k as u64);
        assert(k < 32 ==> ((x as u64) << (k as u64)) % 0x1_0000_0000 == (x << k) as u64)
            by (bit_vector);
        let low = word(x << k);
        let high = high_limb(p as int);
        lemma_u32mul(s1, tail, 0, rest, word(x), factor);
        lemma_drop(restack(s, rest.push(low).push(high)), tail, 1, rest.push(low), high);
        lemma_finish(restack(s, rest.push(low)), tail);
    }
}

/// `u32shr` leaves the value shifted to the right by the amount, which is at
/// most 31.
pub proof fn lemma_u32shr_computes(
    s: MachineState,
    rest: Seq<Felt>,
    x: u32,
    amount: u8,
    imm: Option<u8>,
)
    requires
        amount <= 31,
        imm matches Some(v) ==> v == amount,
        s.stack == shift_operands(rest, x, amount, imm),
    ensures
        run(s, u32shr_ops(imm)) == done(restack(s, rest.push(word(x >> (amount as u32))))),
{
    let ops = u32shr_ops(imm);
    let k = amount as u32;
    if imm == Some(0u8) {
        assert(x >> 0u32 == x) by (bit_vector);
        lemma_noop(s, ops, 0);
        lemma_finish(s, ops);
    } else {
        let tail = seq![Operation::U32div, Operation::Drop];
        lemma_run_concat(s, pow2_operand_ops(imm), tail);
        lemma_pow2_operand(s, rest, x, amount, imm);
        let factor = power_of_two(amount as nat);
        let s1 = restack(s, rest.push(word(x)).push(factor));
        lemma_shifted(x, amount as nat);
        lemma_u32_shr_is_div(x, k);
        let quotient = word(x >> k);
        let remainder = Felt::of_int(x as int % pow2(amount as nat) as int);
        lemma_u32div(s1, tail, 0, rest, word(x), factor);
        lemma_drop(
            restack(s, rest.push(quotient).push(remainder)),
            tail,
            1,
            rest.push(quotient),
            remainder,
        );
        lemma_finish(restack(s, rest.push(quotient)), tail);
    }
}

/// The two operations that end a rotation, on a value and the power of two
/// of an amount from 1 to 32, leave the value rotated to the left by the
/// amount.
proof fn lemma_rotation_at(
    s: MachineState,
    ops: Seq<Operation>,
    at: int,
    rest: Seq<Felt>,
    x: u32,
    m: u32,
)
    requires
        0 <= at,
        at + 2 <= ops.len(),
        ops[at] == Operation::U32mul,
        ops[at + 1] == Operation::Add,
        1 <= m <= 32,
        s.stack == rest.push(word(x)).push(power_of_two(m as nat)),
    ensures
        run_from(s, ops, at) == run_from(
            restack(s, rest.push(word(rotate_left(x, m)))),
            ops,
            at + 2,
        ),
{
    let factor = power_of_two(m as nat);
    lemma_shifted(x, m as nat);
    let p = (x as u64) << (m as u64);
    let low = low_limb(p as int);
    let high = high_limb(p as int);
    lemma_u32mul(s, ops, at, rest, word(x), factor);
    lemma_add(restack(s, rest.push(low).push(high)), ops, at + 1, rest, low, high);
    assert(1 <= m < 32 ==> ((x as u64) << (m as u64)) % 0x1_0000_0000 + ((x as u64) << (m as u64))
        / 0x1_0000_0000 == ((x << m) | (x >> ((32 - m) as u32))) as u64) by (bit_vector);
    assert(m == 32 ==> ((x as u64) << (m as u64)) % 0x1_0000_0000 + ((x as u64) << (m as u64))
        / 0x1_0000_0000 == x as u64) by (bit_vector);
    assert(p % 0x1_0000_0000 < 0x1_0000_0000 && p / 0x1_0000_0000 < 0x1_0000_0000) by (bit_vector);
    assert(low.plus(high) == word(rotate_left(x, m)));
}

/// `u32rotl` leaves the value rotated to the left by the amount, which is at
/// most 31.
pub proof fn lemma_u32rotl_computes(
    s: MachineState,
    rest: Seq<Felt>,
    x: u32,
    amount: u8,
    imm: Option<u8>,
)
    requires
        amount <= 31,
        imm matches Some(v) ==> v == amount,
        s.stack == shift_operands(rest, x, amount, imm),
    ensures
        run(s, u32rotl_ops(imm)) == done(
            restack(s, rest.push(word(rotate_left(x, amount as u32)))),
        ),
{
    let ops = u32rotl_ops(imm);
    if imm == Some(0u8) {
        lemma_noop(s, ops, 0);
        lemma_finish(s, ops);
    } else {
        let tail = seq![Operation::U32mul, Operation::Add];
        lemma_run_concat(s, pow2_operand_ops(imm), tail);
        lemma_pow2_operand(s, rest, x, amount, imm);
        let s1 = restack(s, rest.push(word(x)).push(power_of_two(amount as nat)));
        let turned = restack(s, rest.push(word(rotate_left(x, amount as u32))));
        if amount == 0 {
            // only without an immediate: the product of the value and one
            lemma_shifted(x, 0);
            let p = (x as u64) << 0u64;
            assert(((x as u64) << 0u64) % 0x1_0000_0000 == x as u64 && ((x as u64) << 0u64)
                / 0x1_0000_0000 == 0) by (bit_vector);
            lemma_u32mul(s1, tail, 0, rest, word(x), power_of_two(0));
            lemma_add(
                restack(s, rest.push(word(x)).push(word(0))),
                tail,
                1,
                rest,
                word(x),
                word(0),
            );
        } else {
            lemma_rotation_at(s1, tail, 0, rest, x, amount as u32);
        }
        lemma_finish(turned, tail);
    }
}

/// `u32rotr` leaves the value rotated to the right by the amount, which is
/// at most 31.
pub proof fn lemma_u32rotr_computes(
    s: MachineState,
    rest: Seq<Felt>,
    x: u32,
    amount: u8,
    imm: Option<u8>,
)
    requires
        amount <= 31,
        imm matches Some(v) ==> v == amount,
        s.stack == shift_operands(rest, x, amount, imm),
    ensures
        run(s, u32rotr_ops(imm)) == done(
            restack(s, rest.push(word(rotate_right(x, amount as u32)))),
        ),
{
    let ops = u32rotr_ops(imm);
    let k = amount as u32;
    let m = (32 - amount) as u32;
    let turned = restack(s, rest.push(word(rotate_right(x, k))));
    assert(0 < k < 32 && m == 32 - k ==> (x << m) | (x >> k) == (x >> k) | (x << m))
        by (bit_vector);
    if imm == Some(0u8) {
        lemma_noop(s, ops, 0);
        lemma_finish(s, ops);
    } else if imm is Some {
        lemma_push(s, ops, 0, rest.push(word(x)), power_of_two(m as nat));
        lemma_rotation_at(
            restack(s, rest.push(word(x)).push(power_of_two(m as nat))),
            ops,
            1,
            rest,
            x,
            m,
        );
        lemma_finish(turned, ops);
    } else {
        let base = rest.push(word(x));
        let count = word(k);
        let width = Felt::of_int(32);
        assert(ops.subrange(4, 20) =~= pow2_ops());
        lemma_push(s, ops, 0, base.push(count), width);
        lemma_swap(restack(s, base.push(count).push(width)), ops, 1, base, count, width);
        lemma_u32sub(restack(s, base.push(width).push(count)), ops, 2, base, width, count);
        let left = word(m);
        assert(low_limb(width.as_int() - count.as_int()) == left);
        lemma_drop(
            restack(s, base.push(left).push(flag(false))),
            ops,
            3,
            base.push(left),
            flag(false),
        );
        lemma_pow2_at(restack(s, base.push(left)), ops, 4, base, left);
        lemma_rotation_at(restack(s, base.push(power_of_two(m as nat))), ops, 20, rest, x, m);
        lemma_finish(turned, ops);
    }
}

/// A rotation to the left followed by a rotation to the right by the same
/// immediate amount leaves the machine as it was.
pub proof fn lemma_rotations_cancel(s: MachineState, rest: Seq<Felt>, x: u32, amount: u8)
    requires
        amount <= 31,
        s.stack == rest.push(word(x)),
    ensures
        run(s, u32rotl_ops(Some(amount)) + u32rotr_ops(Some(amount))) == done(s),
{
    let imm = Some(amount);
    let turned = rotate_left(x, amount as u32);
    lemma_run_concat(s, u32rotl_ops(imm), u32rotr_ops(imm));
    lemma_u32rotl_computes(s, rest, x, amount, imm);
    lemma_u32rotr_computes(restack(s, rest.push(word(turned))), rest, turned, amount, imm);
    lemma_rotate_round_trip(x, amount as u32);
    assert(restack(s, rest.push(word(x))) == s);
}

// POPULATION COUNT
// ================================================================================================

/// The number of set bits among the `n` lowest bits of `x`.
pub open spec fn bits_below(x: u32, n: u32) -> u32
    decreases n,
{
    if n == 0 {
        0
    } else {
        (bits_below(x, (n - 1) as u32) + ((x >> ((n - 1) as u32)) & 1)) as u32
    }
}

/// The number of set bits of `x`.
pub open spec fn popcount(x: u32) -> u32 {
    bits_below(x, 32)
}

/// The element that a 64-bit value below the modulus stands for.
spec fn el(value: u64) -> Felt {
    Felt::of_int(value as int)
}

/// `u32popcnt` leaves the number of set bits of its operand. The advice
/// stack stays as it is; the trace of the bitwise helper grows.
pub proof fn lemma_u32popcnt_computes(s: MachineState, rest: Seq<Felt>, x: u32)
    requires
        s.stack == rest.push(word(x)),
    ensures
        run(s, u32popcnt_ops()).error is None,
        run(s, u32popcnt_ops()).state.stack == rest.push(word(popcount(x))),
        run(s, u32popcnt_ops()).state.advice == s.advice,
{
    let ops = u32popcnt_ops();
    let big: u64 = x as u64;
    let wx = word(x);
    let and = BitwiseOp::And;

    // i = i - ((i >> 1) & 0x55555555)
    let a1: u64 = big / 2;
    let m1: u64 = (a1 & 0x5555_5555) & 0xFFFF_FFFF;
    assert(m1 <= big) by (bit_vector)
        requires
            a1 == big / 2,
            m1 == (a1 & 0x5555_5555) & 0xFFFF_FFFF,
    ;
    let i1: u64 = (big - m1) as u64;
    lemma_dup0(s, ops, 0, rest, wx);
    lemma_push(restack(s, rest.push(wx).push(wx)), ops, 1, rest.push(wx).push(wx), el(2));
    lemma_u32div(restack(s, rest.push(wx).push(wx).push(el(2))), ops, 2, rest.push(wx), wx, el(2));
    lemma_drop(
        restack(s, rest.push(wx).push(el(a1)).push(el(big % 2))),
        ops,
        3,
        rest.push(wx).push(el(a1)),
        el(big % 2),
    );
    lemma_push(
        restack(s, rest.push(wx).push(el(a1))),
        ops,
        4,
        rest.push(wx).push(el(a1)),
        el(0x5555_5555),
    );
    let q1 = restack(s, rest.push(wx).push(el(a1)).push(el(0x5555_5555)));
    lemma_bitwise(q1, ops, 5, rest.push(wx), and, el(a1), el(0x5555_5555));
    let b1 = after_bitwise(q1, rest.push(wx), and, el(a1), el(0x5555_5555));
    assert(b1.stack == rest.push(wx).push(el(m1)));
    lemma_u32sub(b1, ops, 6, rest, wx, el(m1));
    assert(low_limb(wx.as_int() - el(m1).as_int()) == el(i1));
    lemma_drop(
        restack(b1, rest.push(el(i1)).push(flag(false))),
        ops,
        7,
        rest.push(el(i1)),
        flag(false),
    );

    // i = (i & 0x33333333) + ((i >> 2) & 0x33333333)
    let a2: u64 = i1 / 4;
    let m2: u64 = (a2 & 0x3333_3333) & 0xFFFF_FFFF;
    let m3: u64 = (i1 & 0x3333_3333) & 0xFFFF_FFFF;
    assert(m2 <= 0x3333_3333 && m3 <= 0x3333_3333) by (bit_vector)
        requires
            m2 == (a2 & 0x3333_3333) & 0xFFFF_FFFF,
            m3 == (i1 & 0x3333_3333) & 0xFFFF_FFFF,
    ;
    let i2: u64 = (m2 + m3) as u64;
    let f1 = el(i1);
    lemma_dup0(restack(b1, rest.push(f1)), ops, 8, rest, f1);
    lemma_push(restack(b1, rest.push(f1).push(f1)), ops, 9, rest.push(f1).push(f1), el(4));
    lemma_u32div(
        restack(b1, rest.push(f1).push(f1).push(el(4))),
        ops,
        10,
        rest.push(f1),
        f1,
        el(4),
    );
    lemma_drop(
        restack(b1, rest.push(f1).push(el(a2)).push(el(i1 % 4))),
        ops,
        11,
        rest.push(f1).push(el(a2)),
        el(i1 % 4),
    );
    lemma_push(
        restack(b1, rest.push(f1).push(el(a2))),
        ops,
        12,
        rest.push(f1).push(el(a2)),
        el(0x3333_3333),
    );
    let q2 = restack(b1, rest.push(f1).push(el(a2)).push(el(0x3333_3333)));
    lemma_bitwise(q2, ops, 13, rest.push(f1), and, el(a2), el(0x3333_3333));
    let b2 = after_bitwise(q2, rest.push(f1), and, el(a2), el(0x3333_3333));
    assert(b2.stack == rest.push(f1).push(el(m2)));
    lemma_swap(b2, ops, 14, rest, f1, el(m2));
    lemma_push(
        restack(b2, rest.push(el(m2)).push(f1)),
        ops,
        15,
        rest.push(el(m2)).push(f1),
        el(0x3333_3333),
    );
    let q3 = restack(b2, rest.push(el(m2)).push(f1).push(el(0x3333_3333)));
    lemma_bitwise(q3, ops, 16, rest.push(el(m2)), and, f1, el(0x3333_3333));
    let b3 = after_bitwise(q3, rest.push(el(m2)), and, f1, el(0x3333_3333));
    assert(b3.stack == rest.push(el(m2)).push(el(m3)));
    lemma_u32add(b3, ops, 17, rest, el(m2), el(m3));
    assert(el(m2).plus(el(m3)).as_int() == i2);
    let f2 = el(i2);
    lemma_drop(restack(b3, rest.push(f2).push(el(0))), ops, 18, rest.push(f2), el(0));

    // i = (i + (i >> 4)) & 0x0F0F0F0F
    let a3: u64 = i2 / 16;
    let v3: u64 = ((i2 + a3) % 0x1_0000_0000) as u64;
    let i3: u64 = (v3 & 0x0F0F_0F0F) & 0xFFFF_FFFF;
    assert(i3 <= 0x0F0F_0F0F) by (bit_vector)
        requires
            i3 == (v3 & 0x0F0F_0F0F) & 0xFFFF_FFFF,
    ;
    lemma_dup0(restack(b3, rest.push(f2)), ops, 19, rest, f2);
    lemma_push(restack(b3, rest.push(f2).push(f2)), ops, 20, rest.push(f2).push(f2), el(16));
    lemma_u32div(
        restack(b3, rest.push(f2).push(f2).push(el(16))),
        ops,
        21,
        rest.push(f2),
        f2,
        el(16),
    );
    lemma_drop(
        restack(b3, rest.push(f2).push(el(a3)).push(el(i2 % 16))),
        ops,
        22,
        rest.push(f2).push(el(a3)),
        el(i2 % 16),
    );
    lemma_u32add(restack(b3, rest.push(f2).push(el(a3))), ops, 23, rest, f2, el(a3));
    assert(f2.plus(el(a3)).as_int() == i2 + a3);
    let carry = high_limb(i2 + a3);
    lemma_drop(restack(b3, rest.push(el(v3)).push(carry)), ops, 24, rest.push(el(v3)), carry);
    lemma_push(restack(b3, rest.push(el(v3))), ops, 25, rest.push(el(v3)), el(0x0F0F_0F0F));
    let q4 = restack(b3, rest.push(el(v3)).push(el(0x0F0F_0F0F)));
    lemma_bitwise(q4, ops, 26, rest, and, el(v3), el(0x0F0F_0F0F));
    let b4 = after_bitwise(q4, rest, and, el(v3), el(0x0F0F_0F0F));
    assert(b4.stack == rest.push(el(i3)));

    // (i * 0x01010101) >> 24
    let product: int = i3 * 0x0101_0101;
    assert(0 <= product <= 0x0F0F_0F0F * 0x0101_0101);
    let i4: u64 = (product % 0x1_0000_0000) as u64;
    let count: u64 = i4 / 0x0100_0000;
    let f3 = el(i3);
    lemma_push(b4, ops, 27, rest.push(f3), el(0x0101_0101));
    lemma_u32mul(
        restack(b4, rest.push(f3).push(el(0x0101_0101))),
        ops,
        28,
        rest,
        f3,
        el(0x0101_0101),
    );
    assert(f3.times(el(0x0101_0101)).as_int() == product);
    let top = high_limb(product);
    lemma_drop(restack(b4, rest.push(el(i4)).push(top)), ops, 29, rest.push(el(i4)), top);
    lemma_push(restack(b4, rest.push(el(i4))), ops, 30, rest.push(el(i4)), el(0x0100_0000));
    lemma_u32div(
        restack(b4, rest.push(el(i4)).push(el(0x0100_0000))),
        ops,
        31,
        rest,
        el(i4),
        el(0x0100_0000),
    );
    lemma_drop(
        restack(b4, rest.push(el(count)).push(el(i4 % 0x0100_0000))),
        ops,
        32,
        rest.push(el(count)),
        el(i4 % 0x0100_0000),
    );
    lemma_finish(restack(b4, rest.push(el(count))), ops);

    assert(count == popcount(x) as u64) by (bit_vector)
        requires
            big == x as u64,
            a1 == big / 2,
            m1 == (a1 & 0x5555_5555) & 0xFFFF_FFFF,
            (i1 + m1) as u64 == big,
            m1 <= big,
            a2 == i1 / 4,
            m2 == (a2 & 0x3333_3333) & 0xFFFF_FFFF,
            m3 == (i1 & 0x3333_3333) & 0xFFFF_FFFF,
            i2 == (m2 + m3) as u64,
            m2 <= 0x3333_3333,
            m3 <= 0x3333_3333,
            a3 == i2 / 16,
            v3 == ((i2 + a3) as u64) % 0x1_0000_0000,
            i3 == (v3 & 0x0F0F_0F0F) & 0xFFFF_FFFF,
            i3 <= 0x0F0F_0F0F,
            i4 == ((i3 * 0x0101_0101) as u64) % 0x1_0000_0000,
            count == i4 / 0x0100_0000,
    ;
}

// COUNTS OF LEADING AND TRAILING BITS
// ================================================================================================

/// The number of bits of `x` up to its highest set bit; zero for zero.
pub open spec fn bit_length(x: u32) -> nat
    decreases x,
{
    if x == 0 {
        0
    } else {
        1 + bit_length(x / 2)
    }
}

/// The number of zeros above the highest set bit of `x`; 32 for zero.
pub open spec fn leading_zeros(x: u32) -> nat {
    (32 - bit_length(x)) as nat
}

/// The number of zeros below the lowest set bit of `x`; 32 for zero.
pub open spec fn trailing_zeros(x: u32) -> nat
    decreases x,
{
    if x == 0 {
        32
    } else if x % 2 == 1 {
        0
    } else {
        1 + trailing_zeros(x / 2)
    }
}

/// The number of ones above the highest zero bit of `x`.
pub open spec fn leading_ones(x: u32) -> nat {
    leading_zeros(!x)
}

/// The number of ones below the lowest zero bit of `x`.
pub open spec fn trailing_ones(x: u32) -> nat {
    trailing_zeros(!x)
}

/// The counts that the check of leading zeros lets pass for the operand `n`:
/// any count up to the true one and, for the operand zero, any count below
/// 64.
pub open spec fn clz_check_accepts(n: u32, count: int) -> bool {
    if count <= 32 {
        0 <= count <= leading_zeros(n)
    } else {
        count < 64 && n == 0
    }
}

/// The counts that the check of trailing zeros lets pass for the operand
/// `n`: any count up to the true one and, for the operands zero and one, any
/// count from 33 to 63.
pub open spec fn ctz_check_accepts(n: u32, count: int) -> bool {
    if count <= 32 {
        0 <= count <= trailing_zeros(n)
    } else {
        count < 64 && n <= 1
    }
}

/// A value has at most `m` bits exactly if it is below `2^m`.
pub proof fn lemma_bit_length(x: u32, m: nat)
    ensures
        bit_length(x) <= m <==> x < pow2(m),
    decreases x,
{
    lemma_pow2_pos(m);
    if x != 0 {
        if m == 0 {
            lemma2_to64();
        } else {
            lemma_bit_length(x / 2, (m - 1) as nat);
            lemma_pow2_unfold(m);
        }
    }
}

/// A 32-bit value has at most 32 leading zeros, and as many as a count
/// exactly if it is below `2^(32 - count)`.
pub proof fn lemma_leading_zeros(x: u32, count: nat)
    requires
        count <= 32,
    ensures
        leading_zeros(x) <= 32,
        count <= leading_zeros(x) <==> x < pow2((32 - count) as nat),
{
    lemma2_to64();
    lemma_bit_length(x, 32);
    lemma_bit_length(x, (32 - count) as nat);
}

/// A 32-bit value has at most 32 trailing zeros, and as many as a count
/// exactly if it is a multiple of `2^count`.
pub proof fn lemma_trailing_zeros(x: u32, count: nat)
    requires
        count <= 32,
    ensures
        trailing_zeros(x) <= 32,
        count <= trailing_zeros(x) <==> x as int % pow2(count) as int == 0,
    decreases x,
{
    lemma2_to64();
    lemma_pow2_pos(count);
    if x == 0 {
    } else if count == 0 {
        lemma_trailing_zeros_bound(x);
    } else {
        lemma_trailing_zeros_bound(x);
        lemma_pow2_unfold(count);
        let half = pow2((count - 1) as nat) as int;
        lemma_pow2_pos((count - 1) as nat);
        if x % 2 == 1 {
            assert(x as int % (2 * half) != 0) by (nonlinear_arith)
                requires
                    x as int % 2 == 1,
                    half > 0,
            {
                let q = x as int / (2 * half);
                let r = x as int % (2 * half);
                assert(x as int == (2 * half) * q + r);
                assert((2 * half) * q == 2 * (half * q));
            }
        } else {
            lemma_trailing_zeros(x / 2, (count - 1) as nat);
            let y = (x / 2) as int;
            assert(x as int == 2 * y);
            assert((2 * y) % (2 * half) == 2 * (y % half)) by (nonlinear_arith)
                requires
                    half > 0,
                    y >= 0,
            {
                let q = y / half;
                let r = y % half;
                assert(y == half * q + r);
                assert(2 * y == (2 * half) * q + 2 * r);
                assert(0 <= 2 * r < 2 * half);
                lemma_fundamental_div_mod_converse(
                    2 * y,
                    2 * half,
                    q,
                    2 * r,
                );
            }
        }
    }
}

/// A 32-bit value has at most 32 trailing zeros.
proof fn lemma_trailing_zeros_bound(x: u32)
    ensures
        trailing_zeros(x) <= 32,
        x != 0 ==> trailing_zeros(x) < bit_length(x),
    decreases x,
{
    lemma_bit_length(x, 32);
    lemma2_to64();
    if x != 0 && x % 2 == 0 {
        lemma_trailing_zeros_bound(x / 2);
    }
}

/// The mask of the check of leading zeros leaves the operand as it is
/// exactly for the counts that the check lets pass.
proof fn lemma_clz_mask(n: u32, count: u64)
    requires
        count < 64,
    ensures
        0 < pow2(count as nat) < MODULUS,
        (((0xFFFF_FFFFu64 / (pow2(count as nat) as u64)) & (n as u64)) & 0xFFFF_FFFF == n as u64)
            <==> clz_check_accepts(n, count as int),
{
    lemma2_to64();
    lemma2_to64_rest();
    lemma_pow2_pos(count as nat);
    if count < 63 {
        lemma_pow2_strictly_increases(count as nat, 63);
    }
    let wide = n as u64;
    let q = 0xFFFF_FFFFu64 / (pow2(count as nat) as u64);
    lemma_u64_shr_is_div(0xFFFF_FFFFu64, count);
    assert(q == 0xFFFF_FFFFu64 >> count);
    if count <= 32 {
        let back = (32 - count) as u64;
        assert(count <= 32 && back == 32 - count && wide <= 0xFFFF_FFFF ==> ((((0xFFFF_FFFFu64
            >> count) & wide) & 0xFFFF_FFFF == wide) <==> (wide >> back) == 0)) by (bit_vector);
        lemma_u64_shr_is_div(wide, back);
        lemma_pow2_pos(back as nat);
        let p = pow2(back as nat) as int;
        assert((wide as int / p == 0) <==> wide < p) by (nonlinear_arith)
            requires
                p > 0,
                wide >= 0,
        {
            let d = wide as int / p;
            let r = wide as int % p;
            assert(wide as int == p * d + r);
            assert(0 <= r < p);
            if d > 0 {
                assert(p * d >= p);
            }
            if d < 0 {
                assert(p * d <= -p);
            }
        }
        lemma_leading_zeros(n, count as nat);
    } else {
        assert(32 < count < 64 ==> (((0xFFFF_FFFFu64 >> count) & wide) & 0xFFFF_FFFF == wide
            <==> wide == 0)) by (bit_vector);
    }
}

/// The value of the mask of the check of trailing zeros for a count below
/// 64: `2^32 - 2^count` in the field.
spec fn ctz_mask(count: u64) -> u64 {
    Felt::of_int(0x1_0000_0000).plus(power_of_two(count as nat).neg()).as_int()
}

/// The mask of the check of trailing zeros leaves the operand as it is
/// exactly for the counts that the check lets pass.
proof fn lemma_ctz_mask(n: u32, count: u64)
    requires
        count < 64,
    ensures
        ((ctz_mask(count) & (n as u64)) & 0xFFFF_FFFF == n as u64) <==> ctz_check_accepts(
            n,
            count as int,
        ),
{
    lemma2_to64();
    lemma2_to64_rest();
    lemma_pow2_pos(count as nat);
    if count < 63 {
        lemma_pow2_strictly_increases(count as nat, 63);
    }
    let wide = n as u64;
    let p = pow2(count as nat) as u64;
    lemma_u64_shl_is_mul(1, count);
    assert(p == 1u64 << count);
    let mask = ctz_mask(count);
    assert(power_of_two(count as nat).neg().as_int() == MODULUS - p);
    if count <= 32 {
        if count < 32 {
            lemma_pow2_strictly_increases(count as nat, 32);
        }
        assert(mask == 0x1_0000_0000 - p);
        let below = (p - 1) as u64;
        assert(count <= 32 && p == 1u64 << count && mask + p == 0x1_0000_0000 && below + 1 == p
            && wide <= 0xFFFF_FFFF ==> (((mask & wide) & 0xFFFF_FFFF == wide) <==> wide & below
            == 0)) by (bit_vector);
        lemma_u64_low_bits_mask_is_mod(wide, count as nat);
        assert(low_bits_mask(count as nat) == below);
        lemma_trailing_zeros(n, count as nat);
    } else {
        lemma_pow2_strictly_increases(32, count as nat);
        assert(mask == MODULUS + 0x1_0000_0000 - p);
        assert(32 < count < 64 && p == 1u64 << count && mask == (0xFFFF_FFFF_0000_0001u64 - (p
            - 0x1_0000_0000) as u64) as u64 ==> (((mask & wide) & 0xFFFF_FFFF == wide) <==> wide
            <= 1)) by (bit_vector);
    }
}

/// A run ended without an error, with the given operand stack and advice
/// stack.
pub open spec fn leaves(o: Outcome, stack: Seq<Felt>, advice: Seq<Felt>) -> bool {
    &&& o.error is None
    &&& o.state.stack == stack
    &&& o.state.advice == advice
}

/// A run was stopped by an assertion with error code zero.
pub open spec fn refused(o: Outcome) -> bool {
    o.error == Some(ExecutionError::FailedAssertion(Felt::of_int(0)))
}

/// The first eighteen operations of a check of a count leave the count, the
/// operand and the power of two of the count, if the count is below 64, and
/// stop the run if it is not.
proof fn lemma_check_prepares(
    s: MachineState,
    ops: Seq<Operation>,
    rest: Seq<Felt>,
    n: u32,
    count: Felt,
)
    requires
        18 <= ops.len(),
        ops[0] == Operation::Swap,
        ops[1] == Operation::Dup1,
        ops.subrange(2, 18) == pow2_ops(),
        s.stack == rest.push(word(n)).push(count),
        count.is_canonical(),
    ensures
        count.as_int() < 64 ==> run_from(s, ops, 0) == run_from(
            restack(s, rest.push(count).push(word(n)).push(power_of_two(count.as_int() as nat))),
            ops,
            18,
        ),
        count.as_int() >= 64 ==> refused(run_from(s, ops, 0)),
{
    let base = rest.push(count).push(word(n));
    lemma_swap(s, ops, 0, rest, word(n), count);
    lemma_dup1(restack(s, base), ops, 1, rest, count, word(n));
    if count.as_int() < 64 {
        lemma_pow2_at(restack(s, base.push(count)), ops, 2, base, count);
    } else {
        lemma_pow2_fails_at(restack(s, base.push(count)), ops, 2, base, count);
    }
}

/// The last three operations of a check of a count compare the operand with
/// its masked copy `m`: they leave the count if the two are equal and stop
/// the run if they are not.
proof fn lemma_check_decides(
    s: MachineState,
    ops: Seq<Operation>,
    rest: Seq<Felt>,
    n: u32,
    count: Felt,
    mask: Felt,
)
    requires
        ops.len() == 26,
        ops[22] == Operation::Dup1,
        ops[23] == Operation::U32and,
        ops[24] == Operation::Eq,
        ops[25] == Operation::Assert(Felt::of_int(0)),
        s.stack == rest.push(count).push(word(n)).push(mask),
        mask.is_canonical(),
    ensures
        (mask.as_int() & (n as u64)) & 0xFFFF_FFFF == n as u64 ==> leaves(
            run_from(s, ops, 22),
            rest.push(count),
            s.advice,
        ),
        (mask.as_int() & (n as u64)) & 0xFFFF_FFFF != n as u64 ==> refused(run_from(s, ops, 22)),
{
    let base = rest.push(count).push(word(n));
    let wn = word(n);
    let bits: u64 = mask.as_int();
    let wide: u64 = n as u64;
    let masked: u64 = (bits & wide) & 0xFFFF_FFFF;
    assert(masked <= 0xFFFF_FFFF) by (bit_vector)
        requires
            masked == (bits & wide) & 0xFFFF_FFFF,
    ;
    lemma_dup1(s, ops, 22, rest.push(count), wn, mask);
    let q = restack(s, base.push(mask).push(wn));
    lemma_bitwise(q, ops, 23, base, BitwiseOp::And, mask, wn);
    let b = after_bitwise(q, base, BitwiseOp::And, mask, wn);
    assert(b.stack == base.push(el(masked)));
    lemma_eq(b, ops, 24, rest.push(count), wn, el(masked));
    assert((wn == el(masked)) <==> masked == n as u64);
    let zero = Felt::of_int(0);
    if masked == n as u64 {
        lemma_assert(
            restack(b, rest.push(count).push(flag(true))),
            ops,
            25,
            rest.push(count),
            flag(true),
            zero,
        );
        lemma_finish(restack(b, rest.push(count)), ops);
    } else {
        lemma_assert_fails(
            restack(b, rest.push(count).push(flag(false))),
            ops,
            25,
            rest.push(count),
            flag(false),
            zero,
        );
    }
}

/// The check of a claimed count of leading zeros, on the operand `n` and the
/// count on top of it, leaves the count if it is one of those that
/// [`clz_check_accepts`] describes, and stops the run if it is not.
pub proof fn lemma_clz_check(s: MachineState, rest: Seq<Felt>, n: u32, count: Felt)
    requires
        s.stack == rest.push(word(n)).push(count),
        count.is_canonical(),
    ensures
        clz_check_accepts(n, count.as_int() as int) ==> leaves(
            run(s, clz_check_ops()),
            rest.push(count),
            s.advice,
        ),
        !clz_check_accepts(n, count.as_int() as int) ==> refused(run(s, clz_check_ops())),
{
    let ops = clz_check_ops();
    assert(ops.subrange(2, 18) =~= pow2_ops());
    lemma_check_prepares(s, ops, rest, n, count);
    lemma_leading_zeros(n, 0);
    if count.as_int() < 64 {
        let base = rest.push(count).push(word(n));
        let power = power_of_two(count.as_int() as nat);
        let ones = Felt::of_int(0xFFFF_FFFF);
        lemma_clz_mask(n, count.as_int());
        let quotient: u64 = 0xFFFF_FFFFu64 / (pow2(count.as_int() as nat) as u64);
        let remainder: u64 = 0xFFFF_FFFFu64 % (pow2(count.as_int() as nat) as u64);
        lemma_push(restack(s, base.push(power)), ops, 18, base.push(power), ones);
        lemma_swap(restack(s, base.push(power).push(ones)), ops, 19, base, power, ones);
        lemma_u32div(restack(s, base.push(ones).push(power)), ops, 20, base, ones, power);
        lemma_drop(
            restack(s, base.push(el(quotient)).push(el(remainder))),
            ops,
            21,
            base.push(el(quotient)),
            el(remainder),
        );
        lemma_check_decides(restack(s, base.push(el(quotient))), ops, rest, n, count, el(quotient));
    }
}

/// The check of a claimed count of trailing zeros, on the operand `n` and
/// the count on top of it, leaves the count if it is one of those that
/// [`ctz_check_accepts`] describes, and stops the run if it is not.
pub proof fn lemma_ctz_check(s: MachineState, rest: Seq<Felt>, n: u32, count: Felt)
    requires
        s.stack == rest.push(word(n)).push(count),
        count.is_canonical(),
    ensures
        ctz_check_accepts(n, count.as_int() as int) ==> leaves(
            run(s, ctz_check_ops()),
            rest.push(count),
            s.advice,
        ),
        !ctz_check_accepts(n, count.as_int() as int) ==> refused(run(s, ctz_check_ops())),
{
    let ops = ctz_check_ops();
    assert(ops.subrange(2, 18) =~= pow2_ops());
    lemma_check_prepares(s, ops, rest, n, count);
    lemma_trailing_zeros(n, 0);
    if count.as_int() < 64 {
        let base = rest.push(count).push(word(n));
        let power = power_of_two(count.as_int() as nat);
        let top = Felt::of_int(0x1_0000_0000);
        lemma_ctz_mask(n, count.as_int());
        let mask = top.plus(power.neg());
        lemma_push(restack(s, base.push(power)), ops, 18, base.push(power), top);
        lemma_swap(restack(s, base.push(power).push(top)), ops, 19, base, power, top);
        lemma_neg(restack(s, base.push(top).push(power)), ops, 20, base.push(top), power);
        lemma_add(restack(s, base.push(top).push(power.neg())), ops, 21, base, top, power.neg());
        lemma_check_decides(restack(s, base.push(mask)), ops, rest, n, count, mask);
    }
}

/// Where the check of leading zeros lets none but the true count pass, it
/// passes for the true count and for no other. That is so for every operand
/// and every count but the counts below the true one and, for the operand
/// zero, the counts from 33 to 63.
pub proof fn lemma_clz_check_exact(s: MachineState, rest: Seq<Felt>, n: u32, count: Felt)
    requires
        s.stack == rest.push(word(n)).push(count),
        count.is_canonical(),
        !(count.as_int() < leading_zeros(n)),
        !(n == 0 && 32 < count.as_int() < 64),
    ensures
        run(s, clz_check_ops()).error is None <==> count.as_int() == leading_zeros(n),
{
    lemma_clz_check(s, rest, n, count);
    lemma_leading_zeros(n, 0);
}

/// Where the check of trailing zeros lets none but the true count pass, it
/// passes for the true count and for no other. That is so for every operand
/// and every count but the counts below the true one and, for the operands
/// zero and one, the counts from 33 to 63.
pub proof fn lemma_ctz_check_exact(s: MachineState, rest: Seq<Felt>, n: u32, count: Felt)
    requires
        s.stack == rest.push(word(n)).push(count),
        count.is_canonical(),
        !(count.as_int() < trailing_zeros(n)),
        !(n <= 1 && 32 < count.as_int() < 64),
    ensures
        run(s, ctz_check_ops()).error is None <==> count.as_int() == trailing_zeros(n),
{
    lemma_ctz_check(s, rest, n, count);
    lemma_trailing_zeros(n, 0);
}

/// The checks pass for the true count, whatever the operand: the number of
/// leading or trailing zeros of the operand and, on its complement, the
/// number of its leading or trailing ones.
pub proof fn lemma_true_counts_pass(n: u32)
    ensures
        clz_check_accepts(n, leading_zeros(n) as int),
        ctz_check_accepts(n, trailing_zeros(n) as int),
        clz_check_accepts(!n, leading_ones(n) as int),
        ctz_check_accepts(!n, trailing_ones(n) as int),
{
    lemma_leading_zeros(n, 0);
    lemma_trailing_zeros(n, 0);
    lemma_leading_zeros(!n, 0);
    lemma_trailing_zeros(!n, 0);
}

/// The operations that complement the operand under a count leave the
/// operand with all 32 bits flipped, under the count.
proof fn lemma_complement(s: MachineState, rest: Seq<Felt>, n: u32, count: Felt)
    requires
        s.stack == rest.push(word(n)).push(count),
    ensures
        run(s, complement_ops()) == done(restack(s, rest.push(word(!n)).push(count))),
{
    let ops = complement_ops();
    let wn = word(n);
    let ones = Felt::of_int(0xFFFF_FFFF);
    lemma_swap(s, ops, 0, rest, wn, count);
    lemma_neg(restack(s, rest.push(count).push(wn)), ops, 1, rest.push(count), wn);
    lemma_push(
        restack(s, rest.push(count).push(wn.neg())),
        ops,
        2,
        rest.push(count).push(wn.neg()),
        ones,
    );
    lemma_add(
        restack(s, rest.push(count).push(wn.neg()).push(ones)),
        ops,
        3,
        rest.push(count),
        wn.neg(),
        ones,
    );
    assert(0xFFFF_FFFFu32 - n == !n) by (bit_vector);
    assert(wn.neg().plus(ones) == word(!n));
    lemma_swap(restack(s, rest.push(count).push(word(!n))), ops, 4, rest, count, word(!n));
    lemma_finish(restack(s, rest.push(word(!n)).push(count)), ops);
}

/// The state in which the top of the advice stack has moved to the operand
/// stack.
pub open spec fn advice_popped(s: MachineState) -> MachineState {
    MachineState {
        stack: s.stack.push(s.advice.last()),
        advice: s.advice.drop_last(),
        trace: s.trace,
    }
}

/// The operation that opens a counting instruction moves the count from the
/// advice stack to the operand stack.
proof fn lemma_count_popped(s: MachineState, tail: Seq<Operation>)
    requires
        s.advice.len() > 0,
    ensures
        run(s, seq![Operation::AdvPop] + tail) == run(advice_popped(s), tail),
{
    let head = seq![Operation::AdvPop];
    lemma_run_concat(s, head, tail);
    lemma_advpop(s, head, 0);
    lemma_finish(advice_popped(s), head);
}

/// `u32clz` takes a count from the advice stack and leaves it in the place
/// of its operand if it is one of those that [`clz_check_accepts`]
/// describes, among them the number of leading zeros of the operand; it
/// stops the run if it is not.
pub proof fn lemma_u32clz_computes(
    s: MachineState,
    rest: Seq<Felt>,
    advice: Seq<Felt>,
    n: u32,
    count: Felt,
)
    requires
        s.stack == rest.push(word(n)),
        s.advice == advice.push(count),
        count.is_canonical(),
    ensures
        clz_check_accepts(n, count.as_int() as int) ==> leaves(
            run(s, u32clz_ops()),
            rest.push(count),
            advice,
        ),
        !clz_check_accepts(n, count.as_int() as int) ==> refused(run(s, u32clz_ops())),
{
    lemma_count_popped(s, clz_check_ops());
    assert(advice.push(count).drop_last() =~= advice);
    lemma_clz_check(advice_popped(s), rest, n, count);
}

/// `u32ctz` takes a count from the advice stack and leaves it in the place
/// of its operand if it is one of those that [`ctz_check_accepts`]
/// describes, among them the number of trailing zeros of the operand; it
/// stops the run if it is not.
pub proof fn lemma_u32ctz_computes(
    s: MachineState,
    rest: Seq<Felt>,
    advice: Seq<Felt>,
    n: u32,
    count: Felt,
)
    requires
        s.stack == rest.push(word(n)),
        s.advice == advice.push(count),
        count.is_canonical(),
    ensures
        ctz_check_accepts(n, count.as_int() as int) ==> leaves(
            run(s, u32ctz_ops()),
            rest.push(count),
            advice,
        ),
        !ctz_check_accepts(n, count.as_int() as int) ==> refused(run(s, u32ctz_ops())),
{
    lemma_count_popped(s, ctz_check_ops());
    assert(advice.push(count).drop_last() =~= advice);
    lemma_ctz_check(advice_popped(s), rest, n, count);
}

/// `u32clo` takes a count from the advice stack and checks it as a count of
/// leading zeros of the complement of its operand, that is, of leading ones
/// of the operand.
pub proof fn lemma_u32clo_computes(
    s: MachineState,
    rest: Seq<Felt>,
    advice: Seq<Felt>,
    n: u32,
    count: Felt,
)
    requires
        s.stack == rest.push(word(n)),
        s.advice == advice.push(count),
        count.is_canonical(),
    ensures
        clz_check_accepts(!n, count.as_int() as int) ==> leaves(
            run(s, u32clo_ops()),
            rest.push(count),
            advice,
        ),
        !clz_check_accepts(!n, count.as_int() as int) ==> refused(run(s, u32clo_ops())),
{
    assert(u32clo_ops() =~= seq![Operation::AdvPop] + (complement_ops() + clz_check_ops()));
    lemma_count_popped(s, complement_ops() + clz_check_ops());
    assert(advice.push(count).drop_last() =~= advice);
    let t = advice_popped(s);
    lemma_run_concat(t, complement_ops(), clz_check_ops());
    lemma_complement(t, rest, n, count);
    lemma_clz_check(restack(t, rest.push(word(!n)).push(count)), rest, !n, count);
}

/// `u32cto` takes a count from the advice stack and checks it as a count of
/// trailing zeros of the complement of its operand, that is, of trailing
/// ones of the operand.
pub proof fn lemma_u32cto_computes(
    s: MachineState,
    rest: Seq<Felt>,
    advice: Seq<Felt>,
    n: u32,
    count: Felt,
)
    requires
        s.stack == rest.push(word(n)),
        s.advice == advice.push(count),
        count.is_canonical(),
    ensures
        ctz_check_accepts(!n, count.as_int() as int) ==> leaves(
            run(s, u32cto_ops()),
            rest.push(count),
            advice,
        ),
        !ctz_check_accepts(!n, count.as_int() as int) ==> refused(run(s, u32cto_ops())),
{
    assert(u32cto_ops() =~= seq![Operation::AdvPop] + (complement_ops() + ctz_check_ops()));
    lemma_count_popped(s, complement_ops() + ctz_check_ops());
    assert(advice.push(count).drop_last() =~= advice);
    let t = advice_popped(s);
    lemma_run_concat(t, complement_ops(), ctz_check_ops());
    lemma_complement(t, rest, n, count);
    lemma_ctz_check(restack(t, rest.push(word(!n)).push(count)), rest, !n, count);
}

/// Each of the four counting instructions stops the run where it finds the
/// advice stack empty.
pub proof fn lemma_count_needs_advice(s: MachineState)
    requires
        s.advice.len() == 0,
    ensures
        run(s, u32clz_ops()) == stopped(s, ExecutionError::AdviceStackReadFailed),
        run(s, u32ctz_ops()) == stopped(s, ExecutionError::AdviceStackReadFailed),
        run(s, u32clo_ops()) == stopped(s, ExecutionError::AdviceStackReadFailed),
        run(s, u32cto_ops()) == stopped(s, ExecutionError::AdviceStackReadFailed),
{
    lemma_advpop_fails(s, u32clz_ops(), 0);
    lemma_advpop_fails(s, u32ctz_ops(), 0);
    lemma_advpop_fails(s, u32clo_ops(), 0);
    lemma_advpop_fails(s, u32cto_ops(), 0);
}

} // verus!
