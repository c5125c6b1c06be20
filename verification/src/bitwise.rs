//! The bitwise helper of the machine: AND, OR and XOR of 32-bit values, and
//! the execution trace of these operations.
//!
//! The trace of one operation has 8 rows and 11 columns. The operands are
//! taken apart into 4-bit limbs, most significant limb first, one limb per
//! row:
//!
//! ```text
//!    a     b      a0     a1     a2     a3     b0     b1     b2     b3     c
//! ├─────┴─────┴───────┴──────┴──────┴──────┴──────┴──────┴──────┴──────┴─────┤
//! ```
//!
//! - `a` and `b` hold the limbs of each operand read so far: in the last row
//!   they hold the operands themselves.
//! - `a0` to `a3` and `b0` to `b3` hold the bits of the lowest limb of `a` and
//!   of `b` in that row, lowest bit first.
//! - `c` holds the limbs of the result computed so far: in the last row it
//!   holds the result.
use vstd::prelude::*;
use crate::errors::ExecutionError;
use crate::errors::TraceError;
use crate::felt::Felt;

verus! {

/// Number of columns of the trace of the bitwise helper.
pub const TRACE_WIDTH: usize = 11;

/// Number of rows that one operation adds to the trace.
pub const OP_CYCLE_LEN: usize = 8;

/// The three operations of the helper.
#[derive(Clone, Copy, Debug, PartialEq, Eq, Structural)]
pub enum BitwiseOp {
    And,
    Or,
    Xor,
}

/// A table of field elements held column by column, all columns of one
/// length: the part of an execution trace that a component fills.
pub struct TraceFragment {
    data: Vec<Vec<Felt>>,
}

/// The bitwise helper, which owns the trace of the operations it has done.
pub struct Bitwise {
    trace: [Vec<Felt>; 11],
}

// WHAT THE TRACE HOLDS
// ================================================================================================

/// The number of bits by which the operands are shifted to the right in row
/// `row` of an operation.
pub open spec fn limb_shift(row: int) -> u64 {
    (28 - 4 * row) as u64
}

/// The result of the operation on the low 32 bits of `a` and `b`.
pub open spec fn bitwise_result(op: BitwiseOp, a: u64, b: u64) -> u64 {
    match op {
        BitwiseOp::And => (a & b) & 0xFFFF_FFFF,
        BitwiseOp::Or => (a | b) & 0xFFFF_FFFF,
        BitwiseOp::Xor => (a ^ b) & 0xFFFF_FFFF,
    }
}

/// The first ten entries of a row in which the operands, as far as they have
/// been read, are `a` and `b`: the two values, then the four lowest bits of
/// each.
pub open spec fn row_prefix(a: u64, b: u64) -> Seq<Felt> {
    seq![
        Felt::of_int(a as int),
        Felt::of_int(b as int),
        Felt::of_int((a & 1) as int),
        Felt::of_int(((a >> 1) & 1) as int),
        Felt::of_int(((a >> 2) & 1) as int),
        Felt::of_int(((a >> 3) & 1) as int),
        Felt::of_int((b & 1) as int),
        Felt::of_int(((b >> 1) & 1) as int),
        Felt::of_int(((b >> 2) & 1) as int),
        Felt::of_int(((b >> 3) & 1) as int),
    ]
}

/// Row `row`, from 0 to 7, of the trace of the operation on `a` and `b`: the
/// operands and the result, each shifted so that the limbs read so far
/// remain, and the bits of the limb read in this row.
pub open spec fn trace_row(op: BitwiseOp, a: u64, b: u64, row: int) -> Seq<Felt> {
    row_prefix(a >> limb_shift(row), b >> limb_shift(row)).push(
        Felt::of_int((bitwise_result(op, a, b) >> limb_shift(row)) as int),
    )
}

/// What the operation on `a` and `b` adds to column `column` of the trace.
pub open spec fn op_column(op: BitwiseOp, a: u64, b: u64, column: int) -> Seq<Felt> {
    Seq::new(8, |row: int| trace_row(op, a, b, row)[column])
}

/// All columns of a table have one length.
pub open spec fn columns_aligned(columns: Seq<Seq<Felt>>) -> bool {
    forall|j: int| 0 <= j < columns.len() ==> (#[trigger] columns[j]).len() == columns[0].len()
}

/// The table `after` is the table `before` with the eight rows of the
/// operation on `a` and `b` added at its end.
pub open spec fn op_appended(
    before: Seq<Seq<Felt>>,
    after: Seq<Seq<Felt>>,
    op: BitwiseOp,
    a: u64,
    b: u64,
) -> bool {
    &&& after.len() == before.len()
    &&& forall|j: int|
        0 <= j < before.len() ==> #[trigger] after[j] == before[j] + op_column(op, a, b, j)
}

/// The number of rows of a table: the length of its first column, and zero
/// for a table without columns.
pub open spec fn table_len(columns: Seq<Seq<Felt>>) -> nat {
    if columns.len() == 0 {
        0
    } else {
        columns[0].len()
    }
}

/// Whether a trace of `rows` rows can be copied into a fragment with the
/// given columns: the length is compared first, then the width.
pub open spec fn fill_result(rows: nat, fragment: Seq<Seq<Felt>>) -> Result<(), TraceError> {
    if table_len(fragment) != rows {
        Err(
            TraceError::InconsistentLength {
                expected: rows as usize,
                found: table_len(fragment) as usize,
            },
        )
    } else if fragment.len() != 11 {
        Err(TraceError::InconsistentWidth { expected: 11, found: fragment.len() as usize })
    } else {
        Ok(())
    }
}

// TRACE FRAGMENT
// ================================================================================================

impl TraceFragment {
    /// The columns of the fragment.
    pub closed spec fn columns(&self) -> Seq<Seq<Felt>> {
        Seq::new(self.data@.len(), |j: int| self.data@[j]@)
    }

    /// All columns have one length.
    pub open spec fn wf(&self) -> bool {
        columns_aligned(self.columns())
    }

    /// A fragment of `width` columns and `len` rows, filled with zeros.
    pub fn new(width: usize, len: usize) -> (fragment: TraceFragment)
        ensures
            fragment.wf(),
            fragment.columns().len() == width,
            forall|j: int, k: int|
                0 <= j < width && 0 <= k < len ==> fragment.columns()[j][k] == Felt::of_int(0),
            forall|j: int| 0 <= j < width ==> (#[trigger] fragment.columns()[j]).len() == len,
    {
        let mut data: Vec<Vec<Felt>> = Vec::new();
        let mut j: usize = 0;
        while j < width
            invariant
                j <= width,
                data@.len() == j,
                forall|c: int| 0 <= c < j ==> (#[trigger] data@[c])@.len() == len,
                forall|c: int, k: int| 0 <= c < j && 0 <= k < len ==> data@[c]@[k] == Felt::of_int(
                    0,
                ),
            decreases width - j,
        {
            let mut column: Vec<Felt> = Vec::new();
            let mut k: usize = 0;
            while k < len
                invariant
                    k <= len,
                    column@.len() == k,
                    forall|r: int| 0 <= r < k ==> column@[r] == Felt::of_int(0),
                decreases len - k,
            {
                column.push(Felt::zero());
                k = k + 1;
            }
            data.push(column);
            j = j + 1;
        }
        TraceFragment { data }
    }

    /// The number of columns.
    pub fn width(&self) -> (width: usize)
        ensures
            width == self.columns().len(),
    {
        self.data.len()
    }

    /// The number of rows; zero for a fragment without columns.
    pub fn len(&self) -> (len: usize)
        ensures
            len == table_len(self.columns()),
    {
        if self.data.len() == 0 {
            0
        } else {
            self.data[0].len()
        }
    }

    /// The element in column `column` and row `row`.
    pub fn get(&self, column: usize, row: usize) -> (value: Felt)
        requires
            column < self.columns().len(),
            row < self.columns()[column as int].len(),
        ensures
            value == self.columns()[column as int][row as int],
    {
        self.data[column][row]
    }

    /// Copies `source` over column `column`, which has the length of `source`.
    fn copy_column(&mut self, column: usize, source: &Vec<Felt>)
        requires
            column < old(self).columns().len(),
            old(self).columns()[column as int].len() == source@.len(),
        ensures
            final(self).columns() == old(self).columns().update(column as int, source@),
    {
        let n = source.len();
        let mut k: usize = 0;
        while k < n
            invariant
                k <= n,
                n == source@.len(),
                column < self.data@.len(),
                self.data@.len() == old(self).data@.len(),
                forall|c: int|
                    0 <= c < self.data@.len() && c != column ==> self.data@[c]
                        == old(self).data@[c],
                self.data@[column as int]@.len() == n,
                forall|r: int| 0 <= r < k ==> self.data@[column as int]@[r] == source@[r],
            decreases n - k,
        {
            let value = source[k];
            self.data[column][k] = value;
            k = k + 1;
        }
        assert(self.data@[column as int]@ =~= source@);
        assert(self.columns() =~= old(self).columns().update(column as int, source@));
    }
}

// BITWISE HELPER
// ================================================================================================

impl Bitwise {
    /// The columns of the trace.
    pub closed spec fn columns(&self) -> Seq<Seq<Felt>> {
        Seq::new(11, |j: int| self.trace@[j]@)
    }

    /// The trace has its 11 columns, all of one length.
    pub open spec fn wf(&self) -> bool {
        &&& self.columns().len() == 11
        &&& columns_aligned(self.columns())
    }

    /// The number of rows of the trace.
    pub open spec fn spec_trace_len(&self) -> nat {
        self.columns()[0].len()
    }

    /// A helper with an empty trace.
    pub fn new() -> (bitwise: Bitwise)
        ensures
            bitwise.wf(),
            bitwise.spec_trace_len() == 0,
    {
        let trace: [Vec<Felt>; 11] = [
            Vec::new(),
            Vec::new(),
            Vec::new(),
            Vec::new(),
            Vec::new(),
            Vec::new(),
            Vec::new(),
            Vec::new(),
            Vec::new(),
            Vec::new(),
            Vec::new(),
        ];
        Bitwise { trace }
    }

    /// The number of rows of the trace: eight for every operation done.
    pub fn trace_len(&self) -> (len: usize)
        ensures
            len == self.spec_trace_len(),
    {
        self.trace[0].len()
    }

    /// Computes the bitwise AND of `a` and `b`, which are taken to be 32-bit
    /// values, and adds the 8 rows of the computation to the trace. Of larger
    /// values only the low 32 bits enter the result.
    pub fn u32and(&mut self, a: Felt, b: Felt) -> (r: Result<Felt, ExecutionError>)
        requires
            old(self).wf(),
        ensures
            final(self).wf(),
            final(self).spec_trace_len() == old(self).spec_trace_len() + 8,
            op_appended(
                old(self).columns(),
                final(self).columns(),
                BitwiseOp::And,
                a.as_int(),
                b.as_int(),
            ),
            r == Ok::<Felt, ExecutionError>(
                Felt::of_int(bitwise_result(BitwiseOp::And, a.as_int(), b.as_int()) as int),
            ),
            a.as_int() <= u32::MAX && b.as_int() <= u32::MAX ==> r.unwrap().as_int() == a.as_int()
                & b.as_int(),
    {
        let result = self.compute(BitwiseOp::And, a, b);
        proof {
            let (x, y) = (a.as_int(), b.as_int());
            assert((x & y) & 0xFFFF_FFFF <= 0xFFFF_FFFF && (x <= 0xFFFF_FFFF && y <= 0xFFFF_FFFF
                ==> (x & y) & 0xFFFF_FFFF == x & y)) by (bit_vector);
        }
        Ok(result)
    }

    /// Computes the bitwise OR of `a` and `b`, which are taken to be 32-bit
    /// values, and adds the 8 rows of the computation to the trace. Of larger
    /// values only the low 32 bits enter the result.
    pub fn u32or(&mut self, a: Felt, b: Felt) -> (r: Result<Felt, ExecutionError>)
        requires
            old(self).wf(),
        ensures
            final(self).wf(),
            final(self).spec_trace_len() == old(self).spec_trace_len() + 8,
            op_appended(
                old(self).columns(),
                final(self).columns(),
                BitwiseOp::Or,
                a.as_int(),
                b.as_int(),
            ),
            r == Ok::<Felt, ExecutionError>(
                Felt::of_int(bitwise_result(BitwiseOp::Or, a.as_int(), b.as_int()) as int),
            ),
            a.as_int() <= u32::MAX && b.as_int() <= u32::MAX ==> r.unwrap().as_int() == a.as_int()
                | b.as_int(),
    {
        let result = self.compute(BitwiseOp::Or, a, b);
        proof {
            let (x, y) = (a.as_int(), b.as_int());
            assert((x | y) & 0xFFFF_FFFF <= 0xFFFF_FFFF && (x <= 0xFFFF_FFFF && y <= 0xFFFF_FFFF
                ==> (x | y) & 0xFFFF_FFFF == x | y)) by (bit_vector);
        }
        Ok(result)
    }

    /// Computes the bitwise XOR of `a` and `b`, which are taken to be 32-bit
    /// values, and adds the 8 rows of the computation to the trace. Of larger
    /// values only the low 32 bits enter the result.
    pub fn u32xor(&mut self, a: Felt, b: Felt) -> (r: Result<Felt, ExecutionError>)
        requires
            old(self).wf(),
        ensures
            final(self).wf(),
            final(self).spec_trace_len() == old(self).spec_trace_len() + 8,
            op_appended(
                old(self).columns(),
                final(self).columns(),
                BitwiseOp::Xor,
                a.as_int(),
                b.as_int(),
            ),
            r == Ok::<Felt, ExecutionError>(
                Felt::of_int(bitwise_result(BitwiseOp::Xor, a.as_int(), b.as_int()) as int),
            ),
            a.as_int() <= u32::MAX && b.as_int() <= u32::MAX ==> r.unwrap().as_int() == a.as_int()
                ^ b.as_int(),
    {
        let result = self.compute(BitwiseOp::Xor, a, b);
        proof {
            let (x, y) = (a.as_int(), b.as_int());
            assert((x ^ y) & 0xFFFF_FFFF <= 0xFFFF_FFFF && (x <= 0xFFFF_FFFF && y <= 0xFFFF_FFFF
                ==> (x ^ y) & 0xFFFF_FFFF == x ^ y)) by (bit_vector);
        }
        Ok(result)
    }

    /// Copies the trace into `trace`, which must have the length and the
    /// width of the trace of the helper; a fragment of another length or
    /// width is left as it is and reported. The helper is used up.
    pub fn fill_trace(self, trace: &mut TraceFragment) -> (r: Result<(), TraceError>)
        requires
            self.wf(),
            old(trace).wf(),
        ensures
            final(trace).wf(),
            r == fill_result(self.spec_trace_len(), old(trace).columns()),
            r is Ok ==> final(trace).columns() == self.columns(),
            r is Err ==> final(trace).columns() == old(trace).columns(),
    {
        let expected = self.trace_len();
        let found = trace.len();
        if found != expected {
            return Err(TraceError::InconsistentLength { expected, found });
        }
        if trace.width() != TRACE_WIDTH {
            return Err(
                TraceError::InconsistentWidth { expected: TRACE_WIDTH, found: trace.width() },
            );
        }
        let mut j: usize = 0;
        while j < TRACE_WIDTH
            invariant
                j <= TRACE_WIDTH,
                self.wf(),
                trace.columns().len() == TRACE_WIDTH,
                forall|c: int| 0 <= c < j ==> #[trigger] trace.columns()[c] == self.columns()[c],
                forall|c: int|
                    j <= c < TRACE_WIDTH ==> (#[trigger] trace.columns()[c]).len()
                        == self.spec_trace_len(),
            decreases TRACE_WIDTH - j,
        {
            assert(self.columns()[j as int].len() == self.columns()[0].len());
            trace.copy_column(j, &self.trace[j]);
            j = j + 1;
        }
        assert(trace.columns() =~= self.columns());
        Ok(())
    }

    /// The operation on `a` and `b`, limb by limb from the most significant
    /// one, each limb in a row of the trace.
    fn compute(&mut self, op: BitwiseOp, a: Felt, b: Felt) -> (result: Felt)
        requires
            old(self).wf(),
        ensures
            final(self).wf(),
            final(self).spec_trace_len() == old(self).spec_trace_len() + 8,
            op_appended(old(self).columns(), final(self).columns(), op, a.as_int(), b.as_int()),
            result == Felt::of_int(bitwise_result(op, a.as_int(), b.as_int()) as int),
    {
        let a = a.as_int();
        let b = b.as_int();
        let mut result: u64 = 0;
        let ghost total = bitwise_result(op, a, b);
        proof {
            assert(((a & b) & 0xFFFF_FFFF) >> 32 == 0 && ((a | b) & 0xFFFF_FFFF) >> 32 == 0 && ((a
                ^ b) & 0xFFFF_FFFF) >> 32 == 0) by (bit_vector);
        }

        let mut row: usize = 0;
        while row < 8
            invariant
                row <= 8,
                self.wf(),
                old(self).wf(),
                total == bitwise_result(op, a, b),
                result == total >> ((32 - 4 * row) as u64),
                forall|j: int|
                    0 <= j < 11 ==> #[trigger] self.columns()[j] == old(self).columns()[j]
                        + Seq::new(row as nat, |i: int| trace_row(op, a, b, i)[j]),
            decreases 8 - row,
        {
            let bit_offset: u64 = 28 - 4 * (row as u64);
            // the limbs read so far, the next one in the lowest four bits
            let a_limbs = a >> bit_offset;
            let b_limbs = b >> bit_offset;

            let ghost before = self.columns();
            self.add_trace_row(a_limbs, b_limbs);

            let result_4_bit = match op {
                BitwiseOp::And => (a_limbs & b_limbs) & 0xF,
                BitwiseOp::Or => (a_limbs | b_limbs) & 0xF,
                BitwiseOp::Xor => (a_limbs ^ b_limbs) & 0xF,
            };
            proof {
                let s = bit_offset;
                let prev = result;
                assert(s <= 28 && prev == ((a & b) & 0xFFFF_FFFF) >> ((s + 4) as u64) ==> (prev
                    << 4) | (((a >> s) & (b >> s)) & 0xF) == ((a & b) & 0xFFFF_FFFF) >> s)
                    by (bit_vector);
                assert(s <= 28 && prev == ((a | b) & 0xFFFF_FFFF) >> ((s + 4) as u64) ==> (prev
                    << 4) | (((a >> s) | (b >> s)) & 0xF) == ((a | b) & 0xFFFF_FFFF) >> s)
                    by (bit_vector);
                assert(s <= 28 && prev == ((a ^ b) & 0xFFFF_FFFF) >> ((s + 4) as u64) ==> (prev
                    << 4) | (((a >> s) ^ (b >> s)) & 0xF) == ((a ^ b) & 0xFFFF_FFFF) >> s)
                    by (bit_vector);
            }
            // the limbs of the result so far
            let ghost mid = self.columns();
            result = (result << 4) | result_4_bit;
            let entry = Felt::new(result);
            self.trace[10].push(entry);

            proof {
                assert(limb_shift(row as int) == bit_offset);
                assert(result == total >> bit_offset);
                let this_row = trace_row(op, a, b, row as int);
                assert(row_prefix(a_limbs, b_limbs).len() == 10);
                assert(this_row[10] == entry);
                assert(self.columns()[10] =~= before[10].push(this_row[10]));
                assert forall|j: int| 0 <= j < 11 implies #[trigger] self.columns()[j]
                    == old(self).columns()[j] + Seq::new(
                    (row + 1) as nat,
                    |i: int| trace_row(op, a, b, i)[j],
                ) by {
                    let grown = Seq::new((row + 1) as nat, |i: int| trace_row(op, a, b, i)[j]);
                    let so_far = Seq::new(row as nat, |i: int| trace_row(op, a, b, i)[j]);
                    assert(grown =~= so_far.push(this_row[j]));
                    assert(before[j] == old(self).columns()[j] + so_far);
                    if j < 10 {
                        assert(this_row[j] == row_prefix(a_limbs, b_limbs)[j]);
                        assert(mid[j] == before[j].push(row_prefix(a_limbs, b_limbs)[j]));
                        assert(self.columns()[j] =~= mid[j]);
                    }
                    assert(self.columns()[j] =~= before[j].push(this_row[j]));
                    assert(self.columns()[j] =~= old(self).columns()[j] + grown);
                }
                assert forall|j: int| 0 <= j < 11 implies (#[trigger] self.columns()[j]).len()
                    == self.columns()[0].len() by {
                    assert(self.columns()[j] == old(self).columns()[j] + Seq::new(
                        (row + 1) as nat,
                        |i: int| trace_row(op, a, b, i)[j],
                    ));
                    assert(self.columns()[0] == old(self).columns()[0] + Seq::new(
                        (row + 1) as nat,
                        |i: int| trace_row(op, a, b, i)[0],
                    ));
                    assert(old(self).columns()[j].len() == old(self).columns()[0].len());
                }
            }
            row = row + 1;
        }
        proof {
            assert(total >> 0u64 == total) by (bit_vector);
            assert forall|j: int| 0 <= j < 11 implies #[trigger] self.columns()[j]
                == old(self).columns()[j] + op_column(op, a, b, j) by {
                assert(Seq::new(8, |i: int| trace_row(op, a, b, i)[j]) =~= op_column(op, a, b, j));
            }
        }
        Felt::new(result)
    }

    /// Adds a row to the trace and fills its first ten columns: the current
    /// values of `a` and `b`, then the four lowest bits of each. The last
    /// column is left for the caller.
    fn add_trace_row(&mut self, a: u64, b: u64)
        requires
            old(self).wf(),
        ensures
            final(self).columns().len() == 11,
            forall|j: int|
                0 <= j < 10 ==> #[trigger] final(self).columns()[j] == old(self).columns()[j].push(
                    row_prefix(a, b)[j],
                ),
            final(self).columns()[10] == old(self).columns()[10],
    {
        self.trace[0].push(Felt::new(a));
        self.trace[1].push(Felt::new(b));

        self.trace[2].push(Felt::new(a & 1));
        self.trace[3].push(Felt::new((a >> 1) & 1));
        self.trace[4].push(Felt::new((a >> 2) & 1));
        self.trace[5].push(Felt::new((a >> 3) & 1));

        self.trace[6].push(Felt::new(b & 1));
        self.trace[7].push(Felt::new((b >> 1) & 1));
        self.trace[8].push(Felt::new((b >> 2) & 1));
        self.trace[9].push(Felt::new((b >> 3) & 1));
    }
}

} // verus!
