use zkvm_words::advice::AdviceInjector;
use zkvm_words::errors::AssemblyError;
use zkvm_words::felt::Felt;
use zkvm_words::field_ops::append_pow2_op;
use zkvm_words::operation::Operation;
use zkvm_words::operation::Operation::Add;
use zkvm_words::operation::Operation::AdvPop;
use zkvm_words::operation::Operation::And;
use zkvm_words::operation::Operation::Assert;
use zkvm_words::operation::Operation::CSwap;
use zkvm_words::operation::Operation::Drop;
use zkvm_words::operation::Operation::Dup0;
use zkvm_words::operation::Operation::Dup1;
use zkvm_words::operation::Operation::Dup2;
use zkvm_words::operation::Operation::Dup3;
use zkvm_words::operation::Operation::Eqz;
use zkvm_words::operation::Operation::Expacc;
use zkvm_words::operation::Operation::Incr;
use zkvm_words::operation::Operation::MovUp3;
use zkvm_words::operation::Operation::Neg;
use zkvm_words::operation::Operation::Noop;
use zkvm_words::operation::Operation::Not;
use zkvm_words::operation::Operation::Pad;
use zkvm_words::operation::Operation::Push;
use zkvm_words::operation::Operation::Swap;
use zkvm_words::operation::Operation::U32add;
use zkvm_words::operation::Operation::U32and;
use zkvm_words::operation::Operation::U32assert2;
use zkvm_words::operation::Operation::U32div;
use zkvm_words::operation::Operation::U32mul;
use zkvm_words::operation::Operation::U32split;
use zkvm_words::operation::Operation::U32sub;
use zkvm_words::params::push_u32_value;
use zkvm_words::params::validate_param;
use zkvm_words::span::CodeBlock;
use zkvm_words::span::SpanBuilder;
use zkvm_words::u32_ops::u32add;
use zkvm_words::u32_ops::u32assertw;
use zkvm_words::u32_ops::u32clo;
use zkvm_words::u32_ops::u32clz;
use zkvm_words::u32_ops::u32cto;
use zkvm_words::u32_ops::u32ctz;
use zkvm_words::u32_ops::u32div;
use zkvm_words::u32_ops::u32divmod;
use zkvm_words::u32_ops::u32gt;
use zkvm_words::u32_ops::u32gte;
use zkvm_words::u32_ops::u32lt;
use zkvm_words::u32_ops::u32lte;
use zkvm_words::u32_ops::u32max;
use zkvm_words::u32_ops::u32min;
use zkvm_words::u32_ops::u32mod;
use zkvm_words::u32_ops::u32mul;
use zkvm_words::u32_ops::u32not;
use zkvm_words::u32_ops::u32popcnt;
use zkvm_words::u32_ops::u32rotl;
use zkvm_words::u32_ops::u32rotr;
use zkvm_words::u32_ops::u32shl;
use zkvm_words::u32_ops::u32shr;
use zkvm_words::u32_ops::u32sub;
use zkvm_words::u32_ops::u32testw;
use zkvm_words::u32_ops::U32OpMode;
use zkvm_words::MAX_U32_ROTATE_VALUE;
use zkvm_words::MAX_U32_SHIFT_VALUE;

fn compiled(
    instruction: impl FnOnce(&mut SpanBuilder) -> Result<Option<CodeBlock>, AssemblyError>,
) -> Vec<Operation> {
    let mut span = SpanBuilder::new();
    let r = instruction(&mut span);
    assert!(matches!(r, Ok(None)));
    span.finish().operations().clone()
}

fn refused(
    instruction: impl FnOnce(&mut SpanBuilder) -> Result<Option<CodeBlock>, AssemblyError>,
) -> AssemblyError {
    let mut span = SpanBuilder::new();
    span.push_op(Noop);
    let e = match instruction(&mut span) {
        Err(e) => e,
        Ok(_) => panic!("the instruction compiled"),
    };
    // nothing was emitted
    assert_eq!(span.finish().operations(), &vec![Noop]);
    e
}

fn pow2_sequence() -> Vec<Operation> {
    let zero = Felt::new(0);
    vec![
        Push(Felt::new(2)),
        Pad,
        Incr,
        Swap,
        Pad,
        Expacc,
        Expacc,
        Expacc,
        Expacc,
        Expacc,
        Expacc,
        Drop,
        Drop,
        Swap,
        Eqz,
        Assert(zero),
    ]
}

#[test]
fn shift_and_rotate_limits_are_31() {
    assert_eq!(MAX_U32_SHIFT_VALUE, 31);
    assert_eq!(MAX_U32_ROTATE_VALUE, 31);
}

#[test]
fn a_new_span_is_empty() {
    let block = SpanBuilder::new().finish();
    assert!(block.operations().is_empty());
    assert!(block.decorators().is_empty());
}

#[test]
fn a_span_keeps_operations_in_the_order_of_their_appending() {
    let mut span = SpanBuilder::new();
    span.push_op(Pad);
    span.push_ops([Incr, Dup0]);
    assert!(matches!(span.add_op(Add), Ok(None)));
    assert!(matches!(span.add_ops([Swap, Drop]), Ok(None)));
    span.push_ops([]);
    let block = span.finish();
    assert_eq!(block.operations(), &vec![Pad, Incr, Dup0, Add, Swap, Drop]);
    assert!(block.decorators().is_empty());
}

#[test]
fn an_injector_is_recorded_at_the_position_of_the_next_operation() {
    let mut span = SpanBuilder::new();
    span.push_advice_injector(AdviceInjector::Clz);
    span.push_ops([Pad, Incr]);
    span.push_advice_injector(AdviceInjector::Ctz);
    span.push_op(AdvPop);
    let block = span.finish();
    assert_eq!(block.decorators(), &vec![(0, AdviceInjector::Clz), (2, AdviceInjector::Ctz)]);
    assert_eq!(block.operations().len(), 3);
}

#[test]
fn validate_param_accepts_the_bounds_and_what_lies_between() {
    assert_eq!(validate_param(1, 1, 31), Ok(()));
    assert_eq!(validate_param(17, 1, 31), Ok(()));
    assert_eq!(validate_param(31, 1, 31), Ok(()));
}

#[test]
fn validate_param_reports_value_and_bounds() {
    assert_eq!(
        validate_param(0, 1, 31),
        Err(AssemblyError::ParamOutOfBounds { value: 0, min: 1, max: 31 })
    );
    assert_eq!(
        validate_param(32, 1, 31),
        Err(AssemblyError::ParamOutOfBounds { value: 32, min: 1, max: 31 })
    );
}

#[test]
fn push_u32_value_spares_the_push_for_zero_and_one() {
    let mut span = SpanBuilder::new();
    push_u32_value(&mut span, 0);
    assert_eq!(span.finish().operations(), &vec![Pad]);
    let mut span = SpanBuilder::new();
    push_u32_value(&mut span, 1);
    assert_eq!(span.finish().operations(), &vec![Pad, Incr]);
    let mut span = SpanBuilder::new();
    push_u32_value(&mut span, 2);
    assert_eq!(span.finish().operations(), &vec![Push(Felt::new(2))]);
    let mut span = SpanBuilder::new();
    push_u32_value(&mut span, u32::MAX);
    assert_eq!(span.finish().operations(), &vec![Push(Felt::new(0xFFFF_FFFF))]);
}

#[test]
fn append_pow2_op_appends_sixteen_operations() {
    let mut span = SpanBuilder::new();
    append_pow2_op(&mut span);
    assert_eq!(span.finish().operations(), &pow2_sequence());
}

#[test]
fn u32testw_compiles_to_23_operations() {
    let ops = compiled(|span| u32testw(span));
    let expected = vec![
        Dup3, U32split, Swap, Drop, Eqz, Dup3, U32split, Swap, Drop, Eqz, And, Dup2, U32split,
        Swap, Drop, Eqz, And, Dup1, U32split, Swap, Drop, Eqz, And,
    ];
    assert_eq!(ops.len(), 23);
    assert_eq!(ops, expected);
}

#[test]
fn u32assertw_compiles_to_6_operations_with_its_error_code() {
    let code = Felt::new(42);
    let ops = compiled(|span| u32assertw(span, code));
    assert_eq!(ops, vec![U32assert2(code), MovUp3, MovUp3, U32assert2(code), MovUp3, MovUp3]);
}

#[test]
fn u32wrapping_add_with_immediate_5_compiles_to_push_add_drop() {
    let ops = compiled(|span| u32add(span, U32OpMode::Wrapping, Some(5)));
    assert_eq!(ops, vec![Push(Felt::new(5)), U32add, Drop]);
    assert_eq!(ops.len(), 3);
}

#[test]
fn u32overflowing_add_without_immediate_compiles_to_add_only() {
    let ops = compiled(|span| u32add(span, U32OpMode::Overflowing, None));
    assert_eq!(ops, vec![U32add]);
}

#[test]
fn arithmetic_modes_differ_by_the_drop_alone() {
    assert_eq!(compiled(|span| u32add(span, U32OpMode::Wrapping, None)), vec![U32add, Drop]);
    assert_eq!(
        compiled(|span| u32add(span, U32OpMode::Overflowing, Some(9))),
        vec![Push(Felt::new(9)), U32add]
    );
    assert_eq!(compiled(|span| u32sub(span, U32OpMode::Wrapping, None)), vec![U32sub, Drop]);
    assert_eq!(compiled(|span| u32sub(span, U32OpMode::Overflowing, None)), vec![U32sub]);
    assert_eq!(
        compiled(|span| u32sub(span, U32OpMode::Wrapping, Some(3))),
        vec![Push(Felt::new(3)), U32sub, Drop]
    );
    assert_eq!(compiled(|span| u32mul(span, U32OpMode::Wrapping, None)), vec![U32mul, Drop]);
    assert_eq!(compiled(|span| u32mul(span, U32OpMode::Overflowing, None)), vec![U32mul]);
    assert_eq!(
        compiled(|span| u32mul(span, U32OpMode::Overflowing, Some(u32::MAX))),
        vec![Push(Felt::new(0xFFFF_FFFF)), U32mul]
    );
}

#[test]
fn arithmetic_immediates_zero_and_one_are_made_without_a_push() {
    assert_eq!(
        compiled(|span| u32add(span, U32OpMode::Wrapping, Some(0))),
        vec![Pad, U32add, Drop]
    );
    assert_eq!(
        compiled(|span| u32mul(span, U32OpMode::Overflowing, Some(1))),
        vec![Pad, Incr, U32mul]
    );
}

#[test]
fn division_instructions_compile_without_immediate() {
    assert_eq!(compiled(|span| u32div(span, None)), vec![U32div, Drop]);
    assert_eq!(compiled(|span| u32mod(span, None)), vec![U32div, Swap, Drop]);
    assert_eq!(compiled(|span| u32divmod(span, None)), vec![U32div]);
}

#[test]
fn division_instructions_compile_with_a_nonzero_immediate() {
    assert_eq!(compiled(|span| u32div(span, Some(7))), vec![Push(Felt::new(7)), U32div, Drop]);
    assert_eq!(
        compiled(|span| u32mod(span, Some(7))),
        vec![Push(Felt::new(7)), U32div, Swap, Drop]
    );
    assert_eq!(compiled(|span| u32divmod(span, Some(7))), vec![Push(Felt::new(7)), U32div]);
    // the divisor one takes a cycle more
    assert_eq!(compiled(|span| u32div(span, Some(1))), vec![Pad, Incr, U32div, Drop]);
    assert_eq!(compiled(|span| u32mod(span, Some(1))), vec![Pad, Incr, U32div, Swap, Drop]);
    assert_eq!(compiled(|span| u32divmod(span, Some(1))), vec![Pad, Incr, U32div]);
    assert_eq!(
        compiled(|span| u32div(span, Some(u32::MAX))),
        vec![Push(Felt::new(0xFFFF_FFFF)), U32div, Drop]
    );
}

#[test]
fn division_by_an_immediate_zero_fails_before_anything_is_emitted() {
    assert_eq!(refused(|span| u32div(span, Some(0))), AssemblyError::DivisionByZero);
    assert_eq!(refused(|span| u32mod(span, Some(0))), AssemblyError::DivisionByZero);
    assert_eq!(refused(|span| u32divmod(span, Some(0))), AssemblyError::DivisionByZero);
}

#[test]
fn division_by_a_nonzero_immediate_never_fails() {
    let mut imm: u32 = 1;
    for _ in 0..64 {
        let mut span = SpanBuilder::new();
        assert!(matches!(u32div(&mut span, Some(imm)), Ok(None)));
        assert!(matches!(u32mod(&mut span, Some(imm)), Ok(None)));
        assert!(matches!(u32divmod(&mut span, Some(imm)), Ok(None)));
        imm = imm.wrapping_mul(2654435761).wrapping_add(12345) | 1;
    }
}

#[test]
fn u32not_compiles_to_5_operations() {
    let ops = compiled(|span| u32not(span));
    assert_eq!(
        ops,
        vec![Push(Felt::new(0xFFFF_FFFF)), U32assert2(Felt::new(0)), Swap, U32sub, Drop]
    );
}

#[test]
fn shifts_and_rotations_by_zero_compile_to_one_noop() {
    assert_eq!(compiled(|span| u32shl(span, Some(0))), vec![Noop]);
    assert_eq!(compiled(|span| u32shr(span, Some(0))), vec![Noop]);
    assert_eq!(compiled(|span| u32rotl(span, Some(0))), vec![Noop]);
    assert_eq!(compiled(|span| u32rotr(span, Some(0))), vec![Noop]);
}

#[test]
fn shifts_and_rotations_by_an_immediate_push_a_power_of_two() {
    assert_eq!(compiled(|span| u32shl(span, Some(1))), vec![Push(Felt::new(2)), U32mul, Drop]);
    assert_eq!(
        compiled(|span| u32shl(span, Some(31))),
        vec![Push(Felt::new(1 << 31)), U32mul, Drop]
    );
    assert_eq!(compiled(|span| u32shr(span, Some(4))), vec![Push(Felt::new(16)), U32div, Drop]);
    assert_eq!(
        compiled(|span| u32rotl(span, Some(8))),
        vec![Push(Felt::new(256)), U32mul, Add]
    );
    // a rotation to the right is one to the left by 32 less the amount
    assert_eq!(
        compiled(|span| u32rotr(span, Some(8))),
        vec![Push(Felt::new(1 << 24)), U32mul, Add]
    );
    assert_eq!(
        compiled(|span| u32rotr(span, Some(31))),
        vec![Push(Felt::new(2)), U32mul, Add]
    );
    assert_eq!(
        compiled(|span| u32rotr(span, Some(1))),
        vec![Push(Felt::new(1 << 31)), U32mul, Add]
    );
}

#[test]
fn shifts_and_rotations_without_immediate_compute_the_power_of_two() {
    let mut shl = pow2_sequence();
    shl.extend([U32mul, Drop]);
    assert_eq!(compiled(|span| u32shl(span, None)), shl);
    assert_eq!(shl.len(), 18);

    let mut shr = pow2_sequence();
    shr.extend([U32div, Drop]);
    assert_eq!(compiled(|span| u32shr(span, None)), shr);

    let mut rotl = pow2_sequence();
    rotl.extend([U32mul, Add]);
    assert_eq!(compiled(|span| u32rotl(span, None)), rotl);

    let mut rotr = vec![Push(Felt::new(32)), Swap, U32sub, Drop];
    rotr.extend(pow2_sequence());
    rotr.extend([U32mul, Add]);
    assert_eq!(compiled(|span| u32rotr(span, None)), rotr);
    assert_eq!(rotr.len(), 22);
}

#[test]
fn shift_and_rotation_amounts_above_31_are_refused() {
    let out_of_bounds = |value: u64| AssemblyError::ParamOutOfBounds { value, min: 1, max: 31 };
    assert_eq!(refused(|span| u32shl(span, Some(32))), out_of_bounds(32));
    assert_eq!(refused(|span| u32shr(span, Some(33))), out_of_bounds(33));
    assert_eq!(refused(|span| u32rotl(span, Some(32))), out_of_bounds(32));
    assert_eq!(refused(|span| u32rotr(span, Some(32))), out_of_bounds(32));
    assert_eq!(refused(|span| u32rotr(span, Some(255))), out_of_bounds(255));
    assert_eq!(refused(|span| u32shl(span, Some(255))), out_of_bounds(255));
}

#[test]
fn every_shift_and_rotation_amount_up_to_31_compiles() {
    for amount in 0..=31u8 {
        assert!(matches!(u32shl(&mut SpanBuilder::new(), Some(amount)), Ok(None)));
        assert!(matches!(u32shr(&mut SpanBuilder::new(), Some(amount)), Ok(None)));
        assert!(matches!(u32rotl(&mut SpanBuilder::new(), Some(amount)), Ok(None)));
        assert!(matches!(u32rotr(&mut SpanBuilder::new(), Some(amount)), Ok(None)));
    }
}

#[test]
fn u32popcnt_compiles_to_33_operations() {
    let ops = compiled(|span| u32popcnt(span));
    let expected = vec![
        Dup0,
        Push(Felt::new(2)),
        U32div,
        Drop,
        Push(Felt::new(0x5555_5555)),
        U32and,
        U32sub,
        Drop,
        Dup0,
        Push(Felt::new(4)),
        U32div,
        Drop,
        Push(Felt::new(0x3333_3333)),
        U32and,
        Swap,
        Push(Felt::new(0x3333_3333)),
        U32and,
        U32add,
        Drop,
        Dup0,
        Push(Felt::new(16)),
        U32div,
        Drop,
        U32add,
        Drop,
        Push(Felt::new(0x0F0F_0F0F)),
        U32and,
        Push(Felt::new(0x0101_0101)),
        U32mul,
        Drop,
        Push(Felt::new(1 << 24)),
        U32div,
        Drop,
    ];
    assert_eq!(ops.len(), 33);
    assert_eq!(ops, expected);
}

fn clz_check_sequence() -> Vec<Operation> {
    let mut ops = vec![Swap, Dup1];
    ops.extend(pow2_sequence());
    ops.extend([
        Push(Felt::new(0xFFFF_FFFF)),
        Swap,
        U32div,
        Drop,
        Dup1,
        U32and,
        Operation::Eq,
        Assert(Felt::new(0)),
    ]);
    ops
}

fn ctz_check_sequence() -> Vec<Operation> {
    let mut ops = vec![Swap, Dup1];
    ops.extend(pow2_sequence());
    ops.extend([
        Push(Felt::new(1 << 32)),
        Swap,
        Neg,
        Add,
        Dup1,
        U32and,
        Operation::Eq,
        Assert(Felt::new(0)),
    ]);
    ops
}

#[test]
fn u32clz_asks_for_the_count_pops_it_and_checks_it() {
    let mut span = SpanBuilder::new();
    span.push_op(Noop);
    assert!(matches!(u32clz(&mut span), Ok(None)));
    let block = span.finish();
    let mut expected = vec![Noop, AdvPop];
    expected.extend(clz_check_sequence());
    assert_eq!(block.operations(), &expected);
    assert_eq!(block.operations().len(), 1 + 27);
    assert_eq!(block.decorators(), &vec![(1, AdviceInjector::Clz)]);
}

#[test]
fn u32ctz_asks_for_the_count_pops_it_and_checks_it() {
    let mut span = SpanBuilder::new();
    assert!(matches!(u32ctz(&mut span), Ok(None)));
    let block = span.finish();
    let mut expected = vec![AdvPop];
    expected.extend(ctz_check_sequence());
    assert_eq!(block.operations(), &expected);
    assert_eq!(block.operations().len(), 27);
    assert_eq!(block.decorators(), &vec![(0, AdviceInjector::Ctz)]);
}

#[test]
fn u32clo_complements_the_operand_before_the_check() {
    let mut span = SpanBuilder::new();
    assert!(matches!(u32clo(&mut span), Ok(None)));
    let block = span.finish();
    let mut expected = vec![AdvPop, Swap, Neg, Push(Felt::new(0xFFFF_FFFF)), Add, Swap];
    expected.extend(clz_check_sequence());
    assert_eq!(block.operations(), &expected);
    assert_eq!(block.operations().len(), 32);
    assert_eq!(block.decorators(), &vec![(0, AdviceInjector::Clo)]);
}

#[test]
fn u32cto_complements_the_operand_before_the_check() {
    let mut span = SpanBuilder::new();
    assert!(matches!(u32cto(&mut span), Ok(None)));
    let block = span.finish();
    let mut expected = vec![AdvPop, Swap, Neg, Push(Felt::new(0xFFFF_FFFF)), Add, Swap];
    expected.extend(ctz_check_sequence());
    assert_eq!(block.operations(), &expected);
    assert_eq!(block.operations().len(), 32);
    assert_eq!(block.decorators(), &vec![(0, AdviceInjector::Cto)]);
}

#[test]
fn comparisons_derive_from_less_than() {
    let lt = vec![U32sub, Swap, Drop, Eqz, Not];
    assert_eq!(compiled(|span| u32lt(span)), lt);
    assert_eq!(compiled(|span| u32lte(span)), vec![Swap, U32sub, Swap, Drop, Eqz, Not, Not]);
    assert_eq!(compiled(|span| u32gt(span)), vec![Swap, U32sub, Swap, Drop, Eqz, Not]);
    assert_eq!(compiled(|span| u32gte(span)), vec![U32sub, Swap, Drop, Eqz, Not, Not]);
}

#[test]
fn minimum_and_maximum_share_the_ordering() {
    let ordering = vec![Dup1, Dup1, U32sub, Swap, Drop, Eqz, CSwap];
    let mut min = ordering.clone();
    min.push(Drop);
    let mut max = ordering;
    max.extend([Swap, Drop]);
    assert_eq!(compiled(|span| u32min(span)), min);
    assert_eq!(min.len(), 8);
    assert_eq!(compiled(|span| u32max(span)), max);
    assert_eq!(max.len(), 9);
}

#[test]
fn instructions_append_to_what_the_span_holds() {
    let mut span = SpanBuilder::new();
    assert!(matches!(u32add(&mut span, U32OpMode::Wrapping, Some(5)), Ok(None)));
    assert!(matches!(u32shl(&mut span, Some(0)), Ok(None)));
    assert!(matches!(u32lt(&mut span), Ok(None)));
    assert_eq!(
        span.finish().operations(),
        &vec![Push(Felt::new(5)), U32add, Drop, Noop, U32sub, Swap, Drop, Eqz, Not]
    );
}

#[test]
fn a_failed_instruction_leaves_earlier_ones_in_place() {
    let mut span = SpanBuilder::new();
    assert!(matches!(u32add(&mut span, U32OpMode::Overflowing, None), Ok(None)));
    assert!(matches!(u32div(&mut span, Some(0)), Err(AssemblyError::DivisionByZero)));
    assert!(matches!(u32rotl(&mut span, Some(40)), Err(AssemblyError::ParamOutOfBounds { .. })));
    assert_eq!(span.finish().operations(), &vec![U32add]);
}
