use zkvm_words::bitwise::Bitwise;
use zkvm_words::bitwise::TraceFragment;
use zkvm_words::bitwise::OP_CYCLE_LEN;
use zkvm_words::bitwise::TRACE_WIDTH;
use zkvm_words::errors::TraceError;
use zkvm_words::felt::Felt;

fn next_random(state: &mut u64) -> u32 {
    *state ^= *state << 13;
    *state ^= *state >> 7;
    *state ^= *state << 17;
    (*state >> 16) as u32
}

fn value_of(r: Result<Felt, zkvm_words::errors::ExecutionError>) -> u64 {
    match r {
        Ok(value) => value.as_int(),
        Err(e) => panic!("a bitwise operation failed: {:?}", e),
    }
}

fn filled(bitwise: Bitwise) -> TraceFragment {
    let mut fragment = TraceFragment::new(TRACE_WIDTH, bitwise.trace_len());
    assert_eq!(bitwise.fill_trace(&mut fragment), Ok(()));
    fragment
}

#[test]
fn the_trace_has_11_columns_and_an_operation_has_8_rows() {
    assert_eq!(TRACE_WIDTH, 11);
    assert_eq!(OP_CYCLE_LEN, 8);
}

#[test]
fn a_new_helper_has_an_empty_trace() {
    assert_eq!(Bitwise::new().trace_len(), 0);
}

#[test]
fn u32and_of_two_words() {
    let mut bitwise = Bitwise::new();
    let r = bitwise.u32and(Felt::new(0xF0F0_F0F0), Felt::new(0x0FF0_0FF0));
    assert_eq!(value_of(r), 0x00F0_00F0);
}

#[test]
fn u32or_of_two_words() {
    let mut bitwise = Bitwise::new();
    let r = bitwise.u32or(Felt::new(0xF0F0_F0F0), Felt::new(0x0FF0_0FF0));
    assert_eq!(value_of(r), 0xFFF0_FFF0);
}

#[test]
fn u32xor_of_two_words() {
    let mut bitwise = Bitwise::new();
    let r = bitwise.u32xor(Felt::new(0xF0F0_F0F0), Felt::new(0x0FF0_0FF0));
    assert_eq!(value_of(r), 0xFF00_FF00);
}

#[test]
fn bitwise_results_at_the_extremes() {
    let mut bitwise = Bitwise::new();
    let max = Felt::new(0xFFFF_FFFF);
    let zero = Felt::new(0);
    assert_eq!(value_of(bitwise.u32and(max, max)), 0xFFFF_FFFF);
    assert_eq!(value_of(bitwise.u32and(max, zero)), 0);
    assert_eq!(value_of(bitwise.u32or(zero, zero)), 0);
    assert_eq!(value_of(bitwise.u32or(max, zero)), 0xFFFF_FFFF);
    assert_eq!(value_of(bitwise.u32xor(max, max)), 0);
    assert_eq!(value_of(bitwise.u32xor(max, zero)), 0xFFFF_FFFF);
}

#[test]
fn bitwise_results_agree_with_the_operators_on_many_words() {
    let mut state: u64 = 0x9E37_79B9_7F4A_7C15;
    let mut bitwise = Bitwise::new();
    for round in 0..300 {
        let a = next_random(&mut state);
        let b = next_random(&mut state);
        let (fa, fb) = (Felt::new(a as u64), Felt::new(b as u64));
        assert_eq!(value_of(bitwise.u32and(fa, fb)), (a & b) as u64);
        assert_eq!(value_of(bitwise.u32or(fa, fb)), (a | b) as u64);
        assert_eq!(value_of(bitwise.u32xor(fa, fb)), (a ^ b) as u64);
        assert_eq!(bitwise.trace_len(), 3 * 8 * (round + 1));
    }
}

#[test]
fn of_larger_values_only_the_low_32_bits_enter_the_result() {
    let mut bitwise = Bitwise::new();
    let a = Felt::new(0x0000_0001_FFFF_0000);
    let b = Felt::new(0x0000_0003_0FF0_FFFF);
    assert_eq!(value_of(bitwise.u32and(a, b)), 0x0FF0_0000);
    assert_eq!(value_of(bitwise.u32or(a, b)), 0xFFFF_FFFF);
    assert_eq!(value_of(bitwise.u32xor(a, b)), 0xF00F_FFFF);
}

#[test]
fn every_operation_adds_8_rows() {
    let mut bitwise = Bitwise::new();
    let _ = bitwise.u32and(Felt::new(1), Felt::new(2));
    assert_eq!(bitwise.trace_len(), 8);
    let _ = bitwise.u32or(Felt::new(1), Felt::new(2));
    assert_eq!(bitwise.trace_len(), 16);
    let _ = bitwise.u32xor(Felt::new(1), Felt::new(2));
    assert_eq!(bitwise.trace_len(), 24);
}

#[test]
fn the_rows_of_an_and_hold_limbs_bits_and_the_growing_result() {
    let a: u64 = 0x1234_5678;
    let b: u64 = 0xFEDC_BA98;
    let mut bitwise = Bitwise::new();
    let _ = bitwise.u32and(Felt::new(a), Felt::new(b));
    let fragment = filled(bitwise);
    assert_eq!(fragment.width(), 11);
    assert_eq!(fragment.len(), 8);
    for row in 0..8 {
        let shift = 28 - 4 * row;
        let (x, y) = (a >> shift, b >> shift);
        let expected = [
            x,
            y,
            x & 1,
            (x >> 1) & 1,
            (x >> 2) & 1,
            (x >> 3) & 1,
            y & 1,
            (y >> 1) & 1,
            (y >> 2) & 1,
            (y >> 3) & 1,
            (a & b) >> shift,
        ];
        for column in 0..11 {
            assert_eq!(fragment.get(column, row).as_int(), expected[column]);
        }
    }
    // the first row holds the most significant limbs, the last row the operands
    assert_eq!(fragment.get(0, 0).as_int(), 0x1);
    assert_eq!(fragment.get(1, 0).as_int(), 0xF);
    assert_eq!(fragment.get(10, 0).as_int(), 0x1);
    assert_eq!(fragment.get(0, 7).as_int(), a);
    assert_eq!(fragment.get(1, 7).as_int(), b);
    assert_eq!(fragment.get(10, 7).as_int(), a & b);
}

#[test]
fn the_operations_differ_in_the_result_column_alone() {
    let a: u64 = 0xDEAD_BEEF;
    let b: u64 = 0x0BAD_F00D;
    let mut bitwise = Bitwise::new();
    let _ = bitwise.u32and(Felt::new(a), Felt::new(b));
    let _ = bitwise.u32or(Felt::new(a), Felt::new(b));
    let _ = bitwise.u32xor(Felt::new(a), Felt::new(b));
    let fragment = filled(bitwise);
    assert_eq!(fragment.len(), 24);
    for row in 0..8 {
        let shift = 28 - 4 * row;
        for column in 0..10 {
            let first = fragment.get(column, row);
            assert_eq!(fragment.get(column, row + 8), first);
            assert_eq!(fragment.get(column, row + 16), first);
        }
        assert_eq!(fragment.get(10, row).as_int(), (a & b) >> shift);
        assert_eq!(fragment.get(10, row + 8).as_int(), (a | b) >> shift);
        assert_eq!(fragment.get(10, row + 16).as_int(), (a ^ b) >> shift);
    }
}

#[test]
fn a_new_fragment_is_filled_with_zeros() {
    let fragment = TraceFragment::new(3, 5);
    assert_eq!(fragment.width(), 3);
    assert_eq!(fragment.len(), 5);
    for column in 0..3 {
        for row in 0..5 {
            assert_eq!(fragment.get(column, row), Felt::zero());
        }
    }
    assert_eq!(TraceFragment::new(0, 5).len(), 0);
    assert_eq!(TraceFragment::new(4, 0).width(), 4);
}

#[test]
fn an_empty_trace_fills_an_empty_fragment() {
    let mut fragment = TraceFragment::new(11, 0);
    assert_eq!(Bitwise::new().fill_trace(&mut fragment), Ok(()));
    assert_eq!(fragment.width(), 11);
    assert_eq!(fragment.len(), 0);
}

#[test]
fn a_fragment_of_another_length_is_reported_and_left_alone() {
    let mut bitwise = Bitwise::new();
    let _ = bitwise.u32and(Felt::new(3), Felt::new(5));
    let mut fragment = TraceFragment::new(11, 16);
    assert_eq!(
        bitwise.fill_trace(&mut fragment),
        Err(TraceError::InconsistentLength { expected: 8, found: 16 })
    );
    assert_eq!(fragment.len(), 16);
    assert_eq!(fragment.get(0, 7), Felt::zero());
}

#[test]
fn a_fragment_of_another_width_is_reported_and_left_alone() {
    let mut bitwise = Bitwise::new();
    let _ = bitwise.u32xor(Felt::new(3), Felt::new(5));
    let mut fragment = TraceFragment::new(10, 8);
    assert_eq!(
        bitwise.fill_trace(&mut fragment),
        Err(TraceError::InconsistentWidth { expected: 11, found: 10 })
    );
    assert_eq!(fragment.width(), 10);
    assert_eq!(fragment.get(0, 7), Felt::zero());
}

#[test]
fn the_length_of_a_fragment_is_compared_before_its_width() {
    let mut fragment = TraceFragment::new(12, 3);
    assert_eq!(
        Bitwise::new().fill_trace(&mut fragment),
        Err(TraceError::InconsistentLength { expected: 0, found: 3 })
    );
}
