use zkvm_words::errors::AssemblyError;
use zkvm_words::errors::ExecutionError;
use zkvm_words::felt::Felt;
use zkvm_words::felt::MODULUS;
use zkvm_words::field_ops::append_pow2_op;
use zkvm_words::operation::Operation;
use zkvm_words::processor::Process;
use zkvm_words::span::CodeBlock;
use zkvm_words::span::SpanBuilder;
use zkvm_words::u32_ops::u32add;
use zkvm_words::u32_ops::u32assertw;
use zkvm_words::u32_ops::u32clo;
use zkvm_words::u32_ops::u32clz;
use zkvm_words::u32_ops::u32cto;
use zkvm_words::u32_ops::u32ctz;
use zkvm_words::u32_ops::u32div;
use zkvm_words::u32_ops::u32divmod;
use zkvm_words::u32_ops::u32gt;
use zkvm_words::u32_ops::u32gte;
use zkvm_words::u32_ops::u32lt;
use zkvm_words::u32_ops::u32lte;
use zkvm_words::u32_ops::u32max;
use zkvm_words::u32_ops::u32min;
use zkvm_words::u32_ops::u32mod;
use zkvm_words::u32_ops::u32mul;
use zkvm_words::u32_ops::u32not;
use zkvm_words::u32_ops::u32popcnt;
use zkvm_words::u32_ops::u32rotl;
use zkvm_words::u32_ops::u32rotr;
use zkvm_words::u32_ops::u32shl;
use zkvm_words::u32_ops::u32shr;
use zkvm_words::u32_ops::u32sub;
use zkvm_words::u32_ops::u32testw;
use zkvm_words::u32_ops::U32OpMode;

const SAMPLES: [u32; 16] = [
    0,
    1,
    2,
    3,
    7,
    0x80,
    0xFF,
    0x1234,
    0x8000,
    0xFFFF,
    0x0001_0000,
    0x1234_5678,
    0x7FFF_FFFF,
    0x8000_0000,
    0xFFFF_FFFE,
    0xFFFF_FFFF,
];

fn ops_of(
    instruction: impl FnOnce(&mut SpanBuilder) -> Result<Option<CodeBlock>, AssemblyError>,
) -> Vec<Operation> {
    let mut span = SpanBuilder::new();
    assert!(matches!(instruction(&mut span), Ok(None)));
    span.finish().operations().clone()
}

fn elements(values: &[u64]) -> Vec<Felt> {
    values.iter().map(|v| Felt::new(*v)).collect()
}

fn values(stack: &Vec<Felt>) -> Vec<u64> {
    stack.iter().map(|e| e.as_int()).collect()
}

/// Runs the operations on a machine with the given operand stack and advice
/// stack, both bottom first, and gives the operand stack at the end.
fn run_with_advice(
    stack: &[u64],
    advice: &[u64],
    ops: &Vec<Operation>,
) -> Result<Vec<u64>, ExecutionError> {
    let mut process = Process::new(elements(stack), elements(advice));
    process.execute(ops)?;
    Ok(values(process.stack()))
}

fn run(stack: &[u64], ops: &Vec<Operation>) -> Result<Vec<u64>, ExecutionError> {
    run_with_advice(stack, &[], ops)
}

fn next_word(state: &mut u64) -> u32 {
    *state ^= *state << 13;
    *state ^= *state >> 7;
    *state ^= *state << 17;
    (*state >> 20) as u32
}

fn failed_assertion() -> ExecutionError {
    ExecutionError::FailedAssertion(Felt::new(0))
}

// SINGLE OPERATIONS
// ================================================================================================

#[test]
fn stack_operations_move_values_as_they_say() {
    assert_eq!(run(&[1, 2], &vec![Operation::Noop]), Ok(vec![1, 2]));
    assert_eq!(run(&[1, 2], &vec![Operation::Pad]), Ok(vec![1, 2, 0]));
    assert_eq!(run(&[1, 2], &vec![Operation::Drop]), Ok(vec![1]));
    assert_eq!(run(&[1, 2], &vec![Operation::Swap]), Ok(vec![2, 1]));
    assert_eq!(run(&[1, 2, 3, 4], &vec![Operation::Dup0]), Ok(vec![1, 2, 3, 4, 4]));
    assert_eq!(run(&[1, 2, 3, 4], &vec![Operation::Dup1]), Ok(vec![1, 2, 3, 4, 3]));
    assert_eq!(run(&[1, 2, 3, 4], &vec![Operation::Dup2]), Ok(vec![1, 2, 3, 4, 2]));
    assert_eq!(run(&[1, 2, 3, 4], &vec![Operation::Dup3]), Ok(vec![1, 2, 3, 4, 1]));
    assert_eq!(run(&[9, 1, 2, 3, 4], &vec![Operation::MovUp3]), Ok(vec![9, 2, 3, 4, 1]));
    assert_eq!(run(&[], &vec![Operation::Push(Felt::new(77))]), Ok(vec![77]));
}

#[test]
fn cswap_exchanges_on_one_and_not_on_zero() {
    assert_eq!(run(&[5, 6, 0], &vec![Operation::CSwap]), Ok(vec![5, 6]));
    assert_eq!(run(&[5, 6, 1], &vec![Operation::CSwap]), Ok(vec![6, 5]));
    assert_eq!(
        run(&[5, 6, 2], &vec![Operation::CSwap]),
        Err(ExecutionError::NotBinaryValue(Felt::new(2)))
    );
}

#[test]
fn field_operations_compute_in_the_field() {
    assert_eq!(run(&[3, 4], &vec![Operation::Add]), Ok(vec![7]));
    assert_eq!(run(&[MODULUS - 1, 4], &vec![Operation::Add]), Ok(vec![3]));
    assert_eq!(run(&[3, 4], &vec![Operation::Mul]), Ok(vec![12]));
    assert_eq!(run(&[MODULUS - 1, 2], &vec![Operation::Mul]), Ok(vec![MODULUS - 2]));
    assert_eq!(run(&[1], &vec![Operation::Neg]), Ok(vec![MODULUS - 1]));
    assert_eq!(run(&[0], &vec![Operation::Neg]), Ok(vec![0]));
    assert_eq!(run(&[41], &vec![Operation::Incr]), Ok(vec![42]));
    assert_eq!(run(&[MODULUS - 1], &vec![Operation::Incr]), Ok(vec![0]));
}

#[test]
fn boolean_operations_work_on_zero_and_one() {
    for (a, b) in [(0u64, 0u64), (0, 1), (1, 0), (1, 1)] {
        assert_eq!(run(&[a, b], &vec![Operation::And]), Ok(vec![a & b]));
    }
    assert_eq!(run(&[0], &vec![Operation::Not]), Ok(vec![1]));
    assert_eq!(run(&[1], &vec![Operation::Not]), Ok(vec![0]));
    assert_eq!(run(&[4, 4], &vec![Operation::Eq]), Ok(vec![1]));
    assert_eq!(run(&[4, 5], &vec![Operation::Eq]), Ok(vec![0]));
    assert_eq!(run(&[0], &vec![Operation::Eqz]), Ok(vec![1]));
    assert_eq!(run(&[9], &vec![Operation::Eqz]), Ok(vec![0]));
}

#[test]
fn boolean_operations_refuse_other_values() {
    assert_eq!(
        run(&[1, 2], &vec![Operation::And]),
        Err(ExecutionError::NotBinaryValue(Felt::new(2)))
    );
    assert_eq!(
        run(&[3, 1], &vec![Operation::And]),
        Err(ExecutionError::NotBinaryValue(Felt::new(3)))
    );
    // the top value is looked at first
    assert_eq!(
        run(&[3, 2], &vec![Operation::And]),
        Err(ExecutionError::NotBinaryValue(Felt::new(2)))
    );
    assert_eq!(
        run(&[2], &vec![Operation::Not]),
        Err(ExecutionError::NotBinaryValue(Felt::new(2)))
    );
}

#[test]
fn assert_passes_on_one_and_fails_with_its_code_otherwise() {
    let code = Felt::new(17);
    assert_eq!(run(&[8, 1], &vec![Operation::Assert(code)]), Ok(vec![8]));
    assert_eq!(
        run(&[8, 0], &vec![Operation::Assert(code)]),
        Err(ExecutionError::FailedAssertion(code))
    );
    assert_eq!(
        run(&[8, 2], &vec![Operation::Assert(code)]),
        Err(ExecutionError::FailedAssertion(code))
    );
}

#[test]
fn expacc_does_one_round_of_square_and_multiply() {
    // [exp, acc, base, bit], the bit on top
    assert_eq!(run(&[5, 3, 7, 0], &vec![Operation::Expacc]), Ok(vec![2, 21, 49, 1]));
    assert_eq!(run(&[4, 3, 7, 1], &vec![Operation::Expacc]), Ok(vec![2, 3, 49, 0]));
}

#[test]
fn u32_operations_split_their_results_in_limbs() {
    assert_eq!(
        run(&[0x0000_0005_0000_0007], &vec![Operation::U32split]),
        Ok(vec![7, 5])
    );
    assert_eq!(run(&[0xFFFF_FFFF, 1], &vec![Operation::U32add]), Ok(vec![0, 1]));
    assert_eq!(run(&[3, 5], &vec![Operation::U32sub]), Ok(vec![0xFFFF_FFFE, 1]));
    assert_eq!(run(&[5, 3], &vec![Operation::U32sub]), Ok(vec![2, 0]));
    assert_eq!(
        run(&[0xFFFF_FFFF, 0xFFFF_FFFF], &vec![Operation::U32mul]),
        Ok(vec![1, 0xFFFF_FFFE])
    );
    assert_eq!(run(&[17, 5], &vec![Operation::U32div]), Ok(vec![3, 2]));
    assert_eq!(run(&[12, 10], &vec![Operation::U32and]), Ok(vec![8]));
    assert_eq!(run(&[12, 10], &vec![Operation::U32or]), Ok(vec![14]));
    assert_eq!(run(&[12, 10], &vec![Operation::U32xor]), Ok(vec![6]));
}

#[test]
fn u32assert2_looks_at_the_top_value_first() {
    let code = Felt::new(3);
    let big = 1u64 << 32;
    assert_eq!(run(&[1, 2], &vec![Operation::U32assert2(code)]), Ok(vec![1, 2]));
    assert_eq!(
        run(&[1, big], &vec![Operation::U32assert2(code)]),
        Err(ExecutionError::NotU32Value(Felt::new(big), code))
    );
    assert_eq!(
        run(&[big + 1, 2], &vec![Operation::U32assert2(code)]),
        Err(ExecutionError::NotU32Value(Felt::new(big + 1), code))
    );
    assert_eq!(
        run(&[big + 1, big], &vec![Operation::U32assert2(code)]),
        Err(ExecutionError::NotU32Value(Felt::new(big), code))
    );
}

#[test]
fn advpop_moves_the_top_of_the_advice_stack() {
    let mut process = Process::new(elements(&[1]), elements(&[10, 20]));
    assert_eq!(process.execute_op(Operation::AdvPop), Ok(()));
    assert_eq!(values(process.stack()), vec![1, 20]);
    assert_eq!(values(process.advice()), vec![10]);
    assert_eq!(process.execute_op(Operation::AdvPop), Ok(()));
    assert_eq!(process.execute_op(Operation::AdvPop), Err(ExecutionError::AdviceStackReadFailed));
    assert_eq!(values(process.stack()), vec![1, 20, 10]);
}

#[test]
fn an_operation_that_finds_too_few_values_underflows() {
    assert_eq!(run(&[], &vec![Operation::Drop]), Err(ExecutionError::StackUnderflow));
    assert_eq!(run(&[1], &vec![Operation::Add]), Err(ExecutionError::StackUnderflow));
    assert_eq!(run(&[1, 2], &vec![Operation::CSwap]), Err(ExecutionError::StackUnderflow));
    assert_eq!(run(&[1, 2, 3], &vec![Operation::Dup3]), Err(ExecutionError::StackUnderflow));
    assert_eq!(run(&[1, 2, 3], &vec![Operation::MovUp3]), Err(ExecutionError::StackUnderflow));
}

#[test]
fn a_failing_operation_leaves_the_machine_as_it_was() {
    let mut process = Process::new(elements(&[6, 0]), elements(&[4]));
    assert_eq!(process.execute_op(Operation::U32div), Err(ExecutionError::DivideByZero));
    assert_eq!(values(process.stack()), vec![6, 0]);
    assert_eq!(values(process.advice()), vec![4]);
}

#[test]
fn a_run_stops_at_the_first_failure() {
    let ops = vec![Operation::Pad, Operation::U32div, Operation::Pad];
    let mut process = Process::new(elements(&[6]), Vec::new());
    assert_eq!(process.execute(&ops), Err(ExecutionError::DivideByZero));
    assert_eq!(values(process.stack()), vec![6, 0]);
}

#[test]
fn bitwise_operations_of_a_run_fill_the_trace_of_the_helper() {
    let ops = vec![Operation::U32and, Operation::Push(Felt::new(1)), Operation::U32xor];
    let mut process = Process::new(elements(&[12, 10]), Vec::new());
    assert_eq!(process.execute(&ops), Ok(()));
    assert_eq!(values(process.stack()), vec![9]);
    let bitwise = process.into_bitwise();
    assert_eq!(bitwise.trace_len(), 16);
}

// POWERS OF TWO
// ================================================================================================

#[test]
fn pow2_replaces_an_exponent_below_64_by_its_power() {
    let mut span = SpanBuilder::new();
    append_pow2_op(&mut span);
    let ops = span.finish().operations().clone();
    for e in 0..64u64 {
        assert_eq!(run(&[9, e], &ops), Ok(vec![9, 1u64 << e]));
    }
}

#[test]
fn pow2_refuses_an_exponent_of_64_or_more() {
    let mut span = SpanBuilder::new();
    append_pow2_op(&mut span);
    let ops = span.finish().operations().clone();
    for e in [64u64, 65, 127, 128, 1 << 20, MODULUS - 1] {
        assert_eq!(run(&[e], &ops), Err(failed_assertion()));
    }
}

// ARITHMETIC
// ================================================================================================

#[test]
fn wrapping_add_is_the_sum_modulo_two_to_32() {
    let ops = ops_of(|span| u32add(span, U32OpMode::Wrapping, None));
    for a in SAMPLES {
        for b in SAMPLES {
            assert_eq!(run(&[a as u64, b as u64], &ops), Ok(vec![a.wrapping_add(b) as u64]));
        }
    }
}

#[test]
fn overflowing_add_leaves_the_carry_on_top() {
    let ops = ops_of(|span| u32add(span, U32OpMode::Overflowing, None));
    for a in SAMPLES {
        for b in SAMPLES {
            let (sum, carry) = a.overflowing_add(b);
            assert_eq!(run(&[a as u64, b as u64], &ops), Ok(vec![sum as u64, carry as u64]));
        }
    }
    assert_eq!(run(&[0xFFFF_FFFF, 1], &ops), Ok(vec![0, 1]));
    assert_eq!(run(&[0xFFFF_FFFE, 1], &ops), Ok(vec![0xFFFF_FFFF, 0]));
}

#[test]
fn add_with_an_immediate_is_add_with_an_operand() {
    for a in SAMPLES {
        for b in SAMPLES {
            let wrapping = ops_of(|span| u32add(span, U32OpMode::Wrapping, Some(b)));
            assert_eq!(run(&[a as u64], &wrapping), Ok(vec![a.wrapping_add(b) as u64]));
            let overflowing = ops_of(|span| u32add(span, U32OpMode::Overflowing, Some(b)));
            let (sum, carry) = a.overflowing_add(b);
            assert_eq!(run(&[a as u64], &overflowing), Ok(vec![sum as u64, carry as u64]));
        }
    }
}

#[test]
fn sub_leaves_the_difference_and_the_borrow() {
    let wrapping = ops_of(|span| u32sub(span, U32OpMode::Wrapping, None));
    let overflowing = ops_of(|span| u32sub(span, U32OpMode::Overflowing, None));
    for a in SAMPLES {
        for b in SAMPLES {
            let (difference, borrow) = a.overflowing_sub(b);
            assert_eq!(run(&[a as u64, b as u64], &wrapping), Ok(vec![difference as u64]));
            assert_eq!(
                run(&[a as u64, b as u64], &overflowing),
                Ok(vec![difference as u64, borrow as u64])
            );
            let immediate = ops_of(|span| u32sub(span, U32OpMode::Overflowing, Some(b)));
            assert_eq!(run(&[a as u64], &immediate), Ok(vec![difference as u64, borrow as u64]));
        }
    }
}

#[test]
fn mul_leaves_the_low_limb_and_the_high_limb() {
    let wrapping = ops_of(|span| u32mul(span, U32OpMode::Wrapping, None));
    let overflowing = ops_of(|span| u32mul(span, U32OpMode::Overflowing, None));
    for a in SAMPLES {
        for b in SAMPLES {
            let product = (a as u64) * (b as u64);
            let (low, high) = (product & 0xFFFF_FFFF, product >> 32);
            assert_eq!(run(&[a as u64, b as u64], &wrapping), Ok(vec![low]));
            assert_eq!(run(&[a as u64, b as u64], &overflowing), Ok(vec![low, high]));
            let immediate = ops_of(|span| u32mul(span, U32OpMode::Wrapping, Some(b)));
            assert_eq!(run(&[a as u64], &immediate), Ok(vec![low]));
        }
    }
}

#[test]
fn division_leaves_quotient_and_remainder() {
    let div = ops_of(|span| u32div(span, None));
    let modulo = ops_of(|span| u32mod(span, None));
    let divmod = ops_of(|span| u32divmod(span, None));
    for a in SAMPLES {
        for b in SAMPLES {
            if b == 0 {
                continue;
            }
            let (q, r) = ((a / b) as u64, (a % b) as u64);
            assert_eq!(run(&[a as u64, b as u64], &div), Ok(vec![q]));
            assert_eq!(run(&[a as u64, b as u64], &modulo), Ok(vec![r]));
            assert_eq!(run(&[a as u64, b as u64], &divmod), Ok(vec![q, r]));
            assert_eq!(run(&[a as u64], &ops_of(|span| u32div(span, Some(b)))), Ok(vec![q]));
            assert_eq!(run(&[a as u64], &ops_of(|span| u32mod(span, Some(b)))), Ok(vec![r]));
            assert_eq!(
                run(&[a as u64], &ops_of(|span| u32divmod(span, Some(b)))),
                Ok(vec![q, r])
            );
        }
    }
}

#[test]
fn division_by_a_zero_on_the_stack_stops_the_run() {
    assert_eq!(run(&[7, 0], &ops_of(|span| u32div(span, None))), Err(ExecutionError::DivideByZero));
    assert_eq!(run(&[7, 0], &ops_of(|span| u32mod(span, None))), Err(ExecutionError::DivideByZero));
    assert_eq!(
        run(&[7, 0], &ops_of(|span| u32divmod(span, None))),
        Err(ExecutionError::DivideByZero)
    );
}

#[test]
fn not_flips_all_32_bits() {
    let ops = ops_of(|span| u32not(span));
    for a in SAMPLES {
        assert_eq!(run(&[5, a as u64], &ops), Ok(vec![5, (!a) as u64]));
    }
}

#[test]
fn not_refuses_an_operand_that_is_not_a_word() {
    let ops = ops_of(|span| u32not(span));
    let big = (1u64 << 32) + 5;
    assert_eq!(
        run(&[big], &ops),
        Err(ExecutionError::NotU32Value(Felt::new(big), Felt::new(0)))
    );
}

// SHIFTS AND ROTATIONS
// ================================================================================================

#[test]
fn shifts_by_an_immediate_agree_with_the_operators() {
    for amount in 0..32u8 {
        let shl = ops_of(|span| u32shl(span, Some(amount)));
        let shr = ops_of(|span| u32shr(span, Some(amount)));
        for x in SAMPLES {
            assert_eq!(run(&[x as u64], &shl), Ok(vec![(x << amount) as u64]));
            assert_eq!(run(&[x as u64], &shr), Ok(vec![(x >> amount) as u64]));
        }
    }
}

#[test]
fn shifts_by_an_amount_on_the_stack_agree_with_the_operators() {
    let shl = ops_of(|span| u32shl(span, None));
    let shr = ops_of(|span| u32shr(span, None));
    for amount in 0..32u64 {
        for x in SAMPLES {
            assert_eq!(run(&[x as u64, amount], &shl), Ok(vec![(x << amount) as u64]));
            assert_eq!(run(&[x as u64, amount], &shr), Ok(vec![(x >> amount) as u64]));
        }
    }
}

#[test]
fn rotations_by_an_immediate_agree_with_the_methods() {
    for amount in 0..32u8 {
        let rotl = ops_of(|span| u32rotl(span, Some(amount)));
        let rotr = ops_of(|span| u32rotr(span, Some(amount)));
        for x in SAMPLES {
            assert_eq!(run(&[x as u64], &rotl), Ok(vec![x.rotate_left(amount as u32) as u64]));
            assert_eq!(run(&[x as u64], &rotr), Ok(vec![x.rotate_right(amount as u32) as u64]));
        }
    }
}

#[test]
fn rotations_by_an_amount_on_the_stack_agree_with_the_methods() {
    let rotl = ops_of(|span| u32rotl(span, None));
    let rotr = ops_of(|span| u32rotr(span, None));
    for amount in 0..32u32 {
        for x in SAMPLES {
            assert_eq!(
                run(&[x as u64, amount as u64], &rotl),
                Ok(vec![x.rotate_left(amount) as u64]),
            );
            assert_eq!(
                run(&[x as u64, amount as u64], &rotr),
                Ok(vec![x.rotate_right(amount) as u64])
            );
        }
    }
}

#[test]
fn rotating_left_and_then_right_gives_back_the_value() {
    let mut state: u64 = 0xA5A5_5A5A_1234_5678;
    for amount in 0..32u8 {
        let mut ops = ops_of(|span| u32rotl(span, Some(amount)));
        ops.extend(ops_of(|span| u32rotr(span, Some(amount))));
        for x in SAMPLES {
            assert_eq!(run(&[x as u64], &ops), Ok(vec![x as u64]));
        }
        for _ in 0..20 {
            let x = next_word(&mut state);
            assert_eq!(run(&[x as u64], &ops), Ok(vec![x as u64]));
        }
    }
}

#[test]
fn a_rotation_to_the_right_by_more_than_32_on_the_stack_stops_the_run() {
    let rotr = ops_of(|span| u32rotr(span, None));
    assert_eq!(run(&[1, 33], &rotr), Err(failed_assertion()));
}

// POPULATION COUNT
// ================================================================================================

#[test]
fn popcnt_of_zero_is_zero() {
    assert_eq!(run(&[0], &ops_of(|span| u32popcnt(span))), Ok(vec![0]));
}

#[test]
fn popcnt_of_all_ones_is_32() {
    assert_eq!(run(&[0xFFFF_FFFF], &ops_of(|span| u32popcnt(span))), Ok(vec![32]));
}

#[test]
fn popcnt_counts_the_set_bits_of_a_thousand_words() {
    let ops = ops_of(|span| u32popcnt(span));
    let mut state: u64 = 0x0123_4567_89AB_CDEF;
    for _ in 0..1000 {
        let x = next_word(&mut state);
        assert_eq!(run(&[3, x as u64], &ops), Ok(vec![3, x.count_ones() as u64]));
    }
    for x in SAMPLES {
        assert_eq!(run(&[x as u64], &ops), Ok(vec![x.count_ones() as u64]));
    }
}

#[test]
fn popcnt_takes_33_cycles_and_four_bitwise_operations() {
    let ops = ops_of(|span| u32popcnt(span));
    assert_eq!(ops.len(), 33);
    let mut process = Process::new(elements(&[0xF0F0]), Vec::new());
    assert_eq!(process.execute(&ops), Ok(()));
    assert_eq!(process.into_bitwise().trace_len(), 4 * 8);
}

// COUNTS OF LEADING AND TRAILING BITS
// ================================================================================================

#[test]
fn the_counting_instructions_accept_the_true_count() {
    let clz = ops_of(|span| u32clz(span));
    let ctz = ops_of(|span| u32ctz(span));
    let clo = ops_of(|span| u32clo(span));
    let cto = ops_of(|span| u32cto(span));
    let mut state: u64 = 0x1357_9BDF_0246_8ACE;
    let mut words: Vec<u32> = SAMPLES.to_vec();
    for shift in 0..32 {
        words.push(1 << shift);
        words.push(!(1 << shift));
        words.push(next_word(&mut state) >> shift);
        words.push(next_word(&mut state) << shift);
    }
    for n in words {
        let lz = n.leading_zeros() as u64;
        let tz = n.trailing_zeros() as u64;
        let lo = n.leading_ones() as u64;
        let to = n.trailing_ones() as u64;
        assert_eq!(run_with_advice(&[8, n as u64], &[lz], &clz), Ok(vec![8, lz]));
        assert_eq!(run_with_advice(&[8, n as u64], &[tz], &ctz), Ok(vec![8, tz]));
        assert_eq!(run_with_advice(&[8, n as u64], &[lo], &clo), Ok(vec![8, lo]));
        assert_eq!(run_with_advice(&[8, n as u64], &[to], &cto), Ok(vec![8, to]));
    }
}

#[test]
fn the_counting_instructions_accept_the_true_count_at_the_extremes() {
    let clz = ops_of(|span| u32clz(span));
    let ctz = ops_of(|span| u32ctz(span));
    let clo = ops_of(|span| u32clo(span));
    let cto = ops_of(|span| u32cto(span));
    assert_eq!(run_with_advice(&[0], &[32], &clz), Ok(vec![32]));
    assert_eq!(run_with_advice(&[0], &[32], &ctz), Ok(vec![32]));
    assert_eq!(run_with_advice(&[0], &[0], &clo), Ok(vec![0]));
    assert_eq!(run_with_advice(&[0], &[0], &cto), Ok(vec![0]));
    assert_eq!(run_with_advice(&[0xFFFF_FFFF], &[0], &clz), Ok(vec![0]));
    assert_eq!(run_with_advice(&[0xFFFF_FFFF], &[0], &ctz), Ok(vec![0]));
    assert_eq!(run_with_advice(&[0xFFFF_FFFF], &[32], &clo), Ok(vec![32]));
    assert_eq!(run_with_advice(&[0xFFFF_FFFF], &[32], &cto), Ok(vec![32]));
}

#[test]
fn the_counting_instructions_refuse_counts_above_the_true_one() {
    let clz = ops_of(|span| u32clz(span));
    let ctz = ops_of(|span| u32ctz(span));
    let clo = ops_of(|span| u32clo(span));
    let cto = ops_of(|span| u32cto(span));
    let mut state: u64 = 0x0F1E_2D3C_4B5A_6978;
    for _ in 0..200 {
        let n = next_word(&mut state) >> (next_word(&mut state) % 32);
        if n == 0 || n == u32::MAX {
            continue;
        }
        for (ops, truth) in [
            (&clz, n.leading_zeros()),
            (&ctz, n.trailing_zeros()),
            (&clo, n.leading_ones()),
            (&cto, n.trailing_ones()),
        ] {
            for wrong in (truth as u64 + 1)..=32 {
                assert_eq!(run_with_advice(&[n as u64], &[wrong], ops), Err(failed_assertion()));
            }
        }
    }
}

#[test]
fn the_counting_instructions_refuse_counts_of_64_or_more() {
    let clz = ops_of(|span| u32clz(span));
    let ctz = ops_of(|span| u32ctz(span));
    for n in SAMPLES {
        for wrong in [64u64, 65, 1000, MODULUS - 1] {
            assert_eq!(run_with_advice(&[n as u64], &[wrong], &clz), Err(failed_assertion()));
            assert_eq!(run_with_advice(&[n as u64], &[wrong], &ctz), Err(failed_assertion()));
        }
    }
}

#[test]
fn the_checks_let_counts_below_the_true_one_pass() {
    let clz = ops_of(|span| u32clz(span));
    let ctz = ops_of(|span| u32ctz(span));
    // 0x0000_0100 has 23 leading zeros and 8 trailing zeros
    for lower in 0..23u64 {
        assert_eq!(run_with_advice(&[0x100], &[lower], &clz), Ok(vec![lower]));
    }
    for lower in 0..8u64 {
        assert_eq!(run_with_advice(&[0x100], &[lower], &ctz), Ok(vec![lower]));
    }
    assert_eq!(run_with_advice(&[0x100], &[24], &clz), Err(failed_assertion()));
    assert_eq!(run_with_advice(&[0x100], &[9], &ctz), Err(failed_assertion()));
}

#[test]
fn the_checks_at_counts_between_33_and_63() {
    let clz = ops_of(|span| u32clz(span));
    let ctz = ops_of(|span| u32ctz(span));
    for count in 33..64u64 {
        // the mask of leading zeros is empty: only zero passes
        assert_eq!(run_with_advice(&[0], &[count], &clz), Ok(vec![count]));
        assert_eq!(run_with_advice(&[1], &[count], &clz), Err(failed_assertion()));
        // the mask of trailing zeros wraps around in the field: zero and one pass
        assert_eq!(run_with_advice(&[0], &[count], &ctz), Ok(vec![count]));
        assert_eq!(run_with_advice(&[1], &[count], &ctz), Ok(vec![count]));
        assert_eq!(run_with_advice(&[2], &[count], &ctz), Err(failed_assertion()));
    }
}

#[test]
fn the_counting_instructions_need_advice() {
    for ops in [
        ops_of(|span| u32clz(span)),
        ops_of(|span| u32ctz(span)),
        ops_of(|span| u32clo(span)),
        ops_of(|span| u32cto(span)),
    ] {
        assert_eq!(run(&[5], &ops), Err(ExecutionError::AdviceStackReadFailed));
    }
}

// COMPARISONS
// ================================================================================================

#[test]
fn comparisons_leave_the_flag_of_the_order() {
    let lt = ops_of(|span| u32lt(span));
    let lte = ops_of(|span| u32lte(span));
    let gt = ops_of(|span| u32gt(span));
    let gte = ops_of(|span| u32gte(span));
    for a in SAMPLES {
        for b in SAMPLES {
            let stack = [a as u64, b as u64];
            assert_eq!(run(&stack, &lt), Ok(vec![(a < b) as u64]));
            assert_eq!(run(&stack, &lte), Ok(vec![(a <= b) as u64]));
            assert_eq!(run(&stack, &gt), Ok(vec![(a > b) as u64]));
            assert_eq!(run(&stack, &gte), Ok(vec![(a >= b) as u64]));
        }
    }
}

#[test]
fn min_of_7_and_3_is_3_and_max_is_7() {
    assert_eq!(run(&[7, 3], &ops_of(|span| u32min(span))), Ok(vec![3]));
    assert_eq!(run(&[7, 3], &ops_of(|span| u32max(span))), Ok(vec![7]));
    assert_eq!(run(&[3, 7], &ops_of(|span| u32min(span))), Ok(vec![3]));
    assert_eq!(run(&[3, 7], &ops_of(|span| u32max(span))), Ok(vec![7]));
}

#[test]
fn min_and_max_agree_with_the_methods() {
    let min = ops_of(|span| u32min(span));
    let max = ops_of(|span| u32max(span));
    for a in SAMPLES {
        for b in SAMPLES {
            assert_eq!(run(&[1, a as u64, b as u64], &min), Ok(vec![1, a.min(b) as u64]));
            assert_eq!(run(&[1, a as u64, b as u64], &max), Ok(vec![1, a.max(b) as u64]));
        }
    }
}

// TESTS OF WORDS
// ================================================================================================

#[test]
fn testw_pushes_one_for_a_word_of_words() {
    let ops = ops_of(|span| u32testw(span));
    assert_eq!(run(&[1, 2, 3, 0xFFFF_FFFF], &ops), Ok(vec![1, 2, 3, 0xFFFF_FFFF, 1]));
}

#[test]
fn testw_pushes_zero_if_any_element_is_too_large() {
    let ops = ops_of(|span| u32testw(span));
    let big = 1u64 << 32;
    for position in 0..4 {
        let mut word = [1u64, 2, 3, 4];
        word[position] = big + position as u64;
        let mut expected = word.to_vec();
        expected.push(0);
        assert_eq!(run(&word, &ops), Ok(expected));
    }
}

#[test]
fn assertw_leaves_a_word_of_words_in_its_order() {
    let ops = ops_of(|span| u32assertw(span, Felt::new(9)));
    assert_eq!(run(&[5, 1, 2, 3, 4], &ops), Ok(vec![5, 1, 2, 3, 4]));
}

#[test]
fn assertw_reports_the_first_element_from_the_top_that_is_too_large() {
    let code = Felt::new(9);
    let ops = ops_of(|span| u32assertw(span, code));
    let big = 1u64 << 32;
    let error = |value: u64| Err(ExecutionError::NotU32Value(Felt::new(value), code));
    assert_eq!(run(&[1, 2, 3, big], &ops), error(big));
    assert_eq!(run(&[1, 2, big, 4], &ops), error(big));
    assert_eq!(run(&[1, big, 3, 4], &ops), error(big));
    assert_eq!(run(&[big, 2, 3, 4], &ops), error(big));
    assert_eq!(run(&[big + 4, big + 3, big + 2, big + 1], &ops), error(big + 1));
    assert_eq!(run(&[big + 4, big + 3, big + 2, 1], &ops), error(big + 2));
    assert_eq!(run(&[big + 4, big + 3, 2, 1], &ops), error(big + 3));
}
