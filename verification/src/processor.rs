//! What the operations do: the machine, in the logic and as it runs.
//!
//! A machine has an operand stack, an advice stack and the trace of its
//! bitwise helper. [`step`] says what one operation makes of a machine and
//! [`run`] what a sequence of operations makes of it; [`Process`] is the
//! machine that runs, and does what they say.
//!
//! Stacks are held bottom first: the top of a stack is its last element.
use vstd::prelude::*;
use crate::bitwise::bitwise_result;
use crate::bitwise::op_column;
use crate::bitwise::Bitwise;
use crate::bitwise::BitwiseOp;
use crate::errors::ExecutionError;
use crate::felt::Felt;
use crate::operation::Operation;

verus! {

// THE MACHINE IN THE LOGIC
// ================================================================================================

/// The state of a machine.
pub struct MachineState {
    /// The operand stack, bottom first.
    pub stack: Seq<Felt>,
    /// The advice stack, bottom first.
    pub advice: Seq<Felt>,
    /// The columns of the trace of the bitwise helper.
    pub trace: Seq<Seq<Felt>>,
}

/// Where a run ended: the state it reached, and the error that stopped it
/// if one did.
pub struct Outcome {
    pub state: MachineState,
    pub error: Option<ExecutionError>,
}

/// Two to the power 32.
pub open spec fn two_32() -> int {
    0x1_0000_0000
}

/// The value at depth `depth` of a stack, the top being at depth zero.
pub open spec fn peek(stack: Seq<Felt>, depth: int) -> Felt {
    stack[stack.len() - 1 - depth]
}

/// The stack with its `count` topmost values replaced by `values`, which are
/// given bottom first.
pub open spec fn replace_top(stack: Seq<Felt>, count: int, values: Seq<Felt>) -> Seq<Felt> {
    stack.subrange(0, stack.len() - count) + values
}

/// One for a condition that holds, zero for one that does not.
pub open spec fn flag(condition: bool) -> Felt {
    if condition {
        Felt::of_int(1)
    } else {
        Felt::of_int(0)
    }
}

/// The low 32 bits of a value.
pub open spec fn low_limb(value: int) -> Felt {
    Felt::of_int(value % two_32())
}

/// What lies above the low 32 bits of a value.
pub open spec fn high_limb(value: int) -> Felt {
    Felt::of_int(value / two_32())
}

/// A value is zero or one.
pub open spec fn is_binary(value: Felt) -> bool {
    value.as_int() == 0 || value.as_int() == 1
}

/// A value is below `2^32`.
pub open spec fn is_u32(value: Felt) -> bool {
    value.as_int() < two_32()
}

/// The number of values that an operation needs on the operand stack.
pub open spec fn operands(op: Operation) -> nat {
    match op {
        Operation::Noop | Operation::Pad | Operation::Push(_) | Operation::AdvPop => 0,
        Operation::Assert(_)
        | Operation::Neg
        | Operation::Incr
        | Operation::Not
        | Operation::Eqz
        | Operation::U32split
        | Operation::Drop
        | Operation::Dup0 => 1,
        Operation::Add
        | Operation::Mul
        | Operation::And
        | Operation::Eq
        | Operation::U32add
        | Operation::U32sub
        | Operation::U32mul
        | Operation::U32div
        | Operation::U32and
        | Operation::U32or
        | Operation::U32xor
        | Operation::U32assert2(_)
        | Operation::Swap
        | Operation::Dup1 => 2,
        Operation::Dup2 | Operation::CSwap => 3,
        Operation::Dup3 | Operation::MovUp3 | Operation::Expacc => 4,
    }
}

/// The number of values by which an operation that succeeds makes the
/// operand stack grow; negative where the stack shrinks.
pub open spec fn stack_growth(op: Operation) -> int {
    match op {
        Operation::Assert(_)
        | Operation::Add
        | Operation::Mul
        | Operation::And
        | Operation::Eq
        | Operation::U32and
        | Operation::U32or
        | Operation::U32xor
        | Operation::Drop
        | Operation::CSwap => -1,
        Operation::Noop
        | Operation::Neg
        | Operation::Incr
        | Operation::Not
        | Operation::Eqz
        | Operation::Expacc
        | Operation::U32add
        | Operation::U32sub
        | Operation::U32mul
        | Operation::U32div
        | Operation::U32assert2(_)
        | Operation::Swap
        | Operation::MovUp3 => 0,
        Operation::U32split
        | Operation::Pad
        | Operation::Dup0
        | Operation::Dup1
        | Operation::Dup2
        | Operation::Dup3
        | Operation::Push(_)
        | Operation::AdvPop => 1,
    }
}

/// The trace of the bitwise helper after one more operation on `a` and `b`.
pub open spec fn grown_trace(trace: Seq<Seq<Felt>>, op: BitwiseOp, a: u64, b: u64) -> Seq<
    Seq<Felt>,
> {
    Seq::new(trace.len(), |j: int| trace[j] + op_column(op, a, b, j))
}

/// The state `s` with another operand stack.
pub open spec fn restack(s: MachineState, stack: Seq<Felt>) -> MachineState {
    MachineState { stack, advice: s.advice, trace: s.trace }
}

/// The step that only replaces the operand stack.
pub open spec fn with_stack(s: MachineState, stack: Seq<Felt>) -> Result<
    MachineState,
    ExecutionError,
> {
    Ok(restack(s, stack))
}

/// The state after a bitwise operation on the two values on top of the stack.
pub open spec fn bitwise_step(s: MachineState, op: BitwiseOp) -> Result<
    MachineState,
    ExecutionError,
> {
    let b = peek(s.stack, 0).as_int();
    let a = peek(s.stack, 1).as_int();
    Ok(
        MachineState {
            stack: replace_top(s.stack, 2, seq![Felt::of_int(bitwise_result(op, a, b) as int)]),
            advice: s.advice,
            trace: grown_trace(s.trace, op, a, b),
        },
    )
}

/// What one operation makes of a machine: the next state, or the error that
/// ends the run. An operation that finds too few values on the operand stack
/// fails with a stack underflow.
#[verifier::opaque]
pub open spec fn step(s: MachineState, op: Operation) -> Result<MachineState, ExecutionError> {
    let st = s.stack;
    let x0 = peek(st, 0);
    let x1 = peek(st, 1);
    let x2 = peek(st, 2);
    let x3 = peek(st, 3);
    if st.len() < operands(op) {
        Err(ExecutionError::StackUnderflow)
    } else {
        match op {
            Operation::Noop => Ok(s),
            Operation::Assert(err_code) => if x0.as_int() == 1 {
                with_stack(s, replace_top(st, 1, seq![]))
            } else {
                Err(ExecutionError::FailedAssertion(err_code))
            },
            Operation::Add => with_stack(s, replace_top(st, 2, seq![x1.plus(x0)])),
            Operation::Neg => with_stack(s, replace_top(st, 1, seq![x0.neg()])),
            Operation::Mul => with_stack(s, replace_top(st, 2, seq![x1.times(x0)])),
            Operation::Incr => with_stack(s, replace_top(st, 1, seq![x0.plus(Felt::of_int(1))])),
            Operation::And => if !is_binary(x0) {
                Err(ExecutionError::NotBinaryValue(x0))
            } else if !is_binary(x1) {
                Err(ExecutionError::NotBinaryValue(x1))
            } else {
                with_stack(
                    s,
                    replace_top(st, 2, seq![flag(x0.as_int() == 1 && x1.as_int() == 1)]),
                )
            },
            Operation::Not => if !is_binary(x0) {
                Err(ExecutionError::NotBinaryValue(x0))
            } else {
                with_stack(s, replace_top(st, 1, seq![flag(x0.as_int() == 0)]))
            },
            Operation::Eq => with_stack(s, replace_top(st, 2, seq![flag(x0 == x1)])),
            Operation::Eqz => with_stack(s, replace_top(st, 1, seq![flag(x0.as_int() == 0)])),
            Operation::Expacc => {
                let exp = x3.as_int();
                let acc = if exp % 2 == 1 {
                    x2.times(x1)
                } else {
                    x2
                };
                with_stack(
                    s,
                    replace_top(
                        st,
                        4,
                        seq![
                            Felt::of_int(exp as int / 2),
                            acc,
                            x1.times(x1),
                            Felt::of_int(exp as int % 2),
                        ],
                    ),
                )
            },
            Operation::U32split => with_stack(
                s,
                replace_top(
                    st,
                    1,
                    seq![low_limb(x0.as_int() as int), high_limb(x0.as_int() as int)],
                ),
            ),
            Operation::U32add => {
                let sum = x1.plus(x0).as_int() as int;
                with_stack(s, replace_top(st, 2, seq![low_limb(sum), high_limb(sum)]))
            },
            Operation::U32sub => with_stack(
                s,
                replace_top(
                    st,
                    2,
                    seq![low_limb(x1.as_int() - x0.as_int()), flag(x1.as_int() < x0.as_int())],
                ),
            ),
            Operation::U32mul => {
                let product = x1.times(x0).as_int() as int;
                with_stack(s, replace_top(st, 2, seq![low_limb(product), high_limb(product)]))
            },
            Operation::U32div => if x0.as_int() == 0 {
                Err(ExecutionError::DivideByZero)
            } else {
                with_stack(
                    s,
                    replace_top(
                        st,
                        2,
                        seq![
                            Felt::of_int(x1.as_int() as int / x0.as_int() as int),
                            Felt::of_int(x1.as_int() as int % x0.as_int() as int),
                        ],
                    ),
                )
            },
            Operation::U32and => bitwise_step(s, BitwiseOp::And),
            Operation::U32or => bitwise_step(s, BitwiseOp::Or),
            Operation::U32xor => bitwise_step(s, BitwiseOp::Xor),
            Operation::U32assert2(err_code) => if !is_u32(x0) {
                Err(ExecutionError::NotU32Value(x0, err_code))
            } else if !is_u32(x1) {
                Err(ExecutionError::NotU32Value(x1, err_code))
            } else {
                Ok(s)
            },
            Operation::Pad => with_stack(s, st.push(Felt::of_int(0))),
            Operation::Drop => with_stack(s, replace_top(st, 1, seq![])),
            Operation::Dup0 => with_stack(s, st.push(x0)),
            Operation::Dup1 => with_stack(s, st.push(x1)),
            Operation::Dup2 => with_stack(s, st.push(x2)),
            Operation::Dup3 => with_stack(s, st.push(x3)),
            Operation::Swap => with_stack(s, replace_top(st, 2, seq![x0, x1])),
            Operation::MovUp3 => with_stack(s, replace_top(st, 4, seq![x2, x1, x0, x3])),
            Operation::CSwap => if x0.as_int() == 0 {
                with_stack(s, replace_top(st, 3, seq![x2, x1]))
            } else if x0.as_int() == 1 {
                with_stack(s, replace_top(st, 3, seq![x1, x2]))
            } else {
                Err(ExecutionError::NotBinaryValue(x0))
            },
            Operation::Push(value) => with_stack(s, st.push(value)),
            Operation::AdvPop => if s.advice.len() == 0 {
                Err(ExecutionError::AdviceStackReadFailed)
            } else {
                Ok(
                    MachineState {
                        stack: st.push(s.advice.last()),
                        advice: s.advice.drop_last(),
                        trace: s.trace,
                    },
                )
            },
        }
    }
}

/// What the operations from position `from` on make of a machine: they run
/// in their order until one fails or none is left.
#[verifier::opaque]
pub open spec fn run_from(s: MachineState, ops: Seq<Operation>, from: int) -> Outcome
    decreases ops.len() - from,
{
    if from < 0 || from >= ops.len() {
        Outcome { state: s, error: None }
    } else {
        match step(s, ops[from]) {
            Ok(next) => run_from(next, ops, from + 1),
            Err(e) => Outcome { state: s, error: Some(e) },
        }
    }
}

/// What a sequence of operations makes of a machine.
pub open spec fn run(s: MachineState, ops: Seq<Operation>) -> Outcome {
    run_from(s, ops, 0)
}

/// A run that ended without an error, in `state`.
pub open spec fn done(state: MachineState) -> Outcome {
    Outcome { state, error: None }
}

/// The effect of an operation on the depth of the operand stack is known
/// without running it: an operation that succeeds found the values it needs
/// and leaves the stack longer by its growth. It touches the advice stack
/// only if it is `AdvPop`, which takes one value off it.
pub proof fn lemma_stack_effect(s: MachineState, op: Operation)
    ensures
        step(s, op) matches Ok(next) ==> {
            &&& s.stack.len() >= operands(op)
            &&& next.stack.len() == s.stack.len() + stack_growth(op)
            &&& next.advice.len() == s.advice.len() - (if op == Operation::AdvPop {
                1int
            } else {
                0int
            })
        },
        s.stack.len() < operands(op) ==> step(s, op) == Err::<MachineState, ExecutionError>(
            ExecutionError::StackUnderflow,
        ),
{
    reveal(step);
}

// THE MACHINE THAT RUNS
// ================================================================================================

/// A machine: an operand stack, an advice stack and a bitwise helper.
pub struct Process {
    stack: Vec<Felt>,
    advice: Vec<Felt>,
    bitwise: Bitwise,
}

impl View for Process {
    type V = MachineState;

    closed spec fn view(&self) -> MachineState {
        MachineState {
            stack: self.stack@,
            advice: self.advice@,
            trace: self.bitwise.columns(),
        }
    }
}

/// The value at depth `depth` of the stack.
fn value_at(stack: &Vec<Felt>, depth: usize) -> (value: Felt)
    requires
        depth < stack@.len(),
    ensures
        value == peek(stack@, depth as int),
{
    stack[stack.len() - 1 - depth]
}

/// Removes the `count` topmost values of the stack.
fn drop_top(stack: &mut Vec<Felt>, count: usize)
    requires
        count <= old(stack)@.len(),
    ensures
        final(stack)@ == replace_top(old(stack)@, count as int, seq![]),
{
    let keep = stack.len() - count;
    stack.truncate(keep);
    assert(stack@ =~= replace_top(old(stack)@, count as int, seq![]));
}

/// Replaces the `count` topmost values of the stack by `a`.
fn set_top1(stack: &mut Vec<Felt>, count: usize, a: Felt)
    requires
        count <= old(stack)@.len(),
    ensures
        final(stack)@ == replace_top(old(stack)@, count as int, seq![a]),
{
    let keep = stack.len() - count;
    stack.truncate(keep);
    stack.push(a);
    assert(stack@ =~= replace_top(old(stack)@, count as int, seq![a]));
}

/// Replaces the `count` topmost values of the stack by `a` and, on top of
/// it, `b`.
fn set_top2(stack: &mut Vec<Felt>, count: usize, a: Felt, b: Felt)
    requires
        count <= old(stack)@.len(),
    ensures
        final(stack)@ == replace_top(old(stack)@, count as int, seq![a, b]),
{
    let keep = stack.len() - count;
    stack.truncate(keep);
    stack.push(a);
    stack.push(b);
    assert(stack@ =~= replace_top(old(stack)@, count as int, seq![a, b]));
}

/// Replaces the four topmost values of the stack by `a`, `b`, `c` and `d`,
/// `d` on top.
fn set_top4(stack: &mut Vec<Felt>, a: Felt, b: Felt, c: Felt, d: Felt)
    requires
        4 <= old(stack)@.len(),
    ensures
        final(stack)@ == replace_top(old(stack)@, 4, seq![a, b, c, d]),
{
    let keep = stack.len() - 4;
    stack.truncate(keep);
    stack.push(a);
    stack.push(b);
    stack.push(c);
    stack.push(d);
    assert(stack@ =~= replace_top(old(stack)@, 4, seq![a, b, c, d]));
}

/// The element for a condition: one if it holds, zero if not.
fn flag_of(condition: bool) -> (value: Felt)
    ensures
        value == flag(condition),
{
    if condition {
        Felt::one()
    } else {
        Felt::zero()
    }
}

impl Process {
    /// The helper of the machine is in order; this holds of every machine
    /// that [`Process::new`] made.
    pub closed spec fn wf(&self) -> bool {
        self.bitwise.wf()
    }

    /// A machine with the given operand stack and advice stack, both bottom
    /// first: the last value of each is its top. No bitwise operation has
    /// been done yet.
    pub fn new(stack: Vec<Felt>, advice: Vec<Felt>) -> (process: Process)
        ensures
            process.wf(),
            process@.stack == stack@,
            process@.advice == advice@,
            process@.trace.len() == 11,
            forall|j: int| 0 <= j < 11 ==> (#[trigger] process@.trace[j]).len() == 0,
    {
        let bitwise = Bitwise::new();
        Process { stack, advice, bitwise }
    }

    /// The operand stack, bottom first.
    pub fn stack(&self) -> (stack: &Vec<Felt>)
        ensures
            stack@ == self@.stack,
    {
        &self.stack
    }

    /// The advice stack, bottom first.
    pub fn advice(&self) -> (advice: &Vec<Felt>)
        ensures
            advice@ == self@.advice,
    {
        &self.advice
    }

    /// The bitwise helper with the trace of the run; the machine is used up.
    pub fn into_bitwise(self) -> (bitwise: Bitwise)
        requires
            self.wf(),
        ensures
            bitwise.wf(),
            bitwise.columns() == self@.trace,
    {
        self.bitwise
    }

    /// Does a bitwise operation on the two values on top of the stack.
    fn execute_bitwise(&mut self, op: BitwiseOp)
        requires
            old(self).wf(),
            old(self)@.stack.len() >= 2,
        ensures
            final(self).wf(),
            Ok::<MachineState, ExecutionError>(final(self)@) == bitwise_step(old(self)@, op),
    {
        let b = value_at(&self.stack, 0);
        let a = value_at(&self.stack, 1);
        let r = match op {
            BitwiseOp::And => self.bitwise.u32and(a, b),
            BitwiseOp::Or => self.bitwise.u32or(a, b),
            BitwiseOp::Xor => self.bitwise.u32xor(a, b),
        };
        let value = match r {
            Ok(value) => value,
            Err(_) => Felt::zero(),
        };
        set_top1(&mut self.stack, 2, value);
        proof {
            assert(self.bitwise.columns() =~= grown_trace(
                old(self).bitwise.columns(),
                op,
                a.as_int(),
                b.as_int(),
            ));
        }
    }

    /// Runs one operation. A machine on which the operation fails is left as
    /// it was.
    pub fn execute_op(&mut self, op: Operation) -> (r: Result<(), ExecutionError>)
        requires
            old(self).wf(),
        ensures
            final(self).wf(),
            match step(old(self)@, op) {
                Ok(next) => r is Ok && final(self)@ == next,
                Err(e) => r == Err::<(), ExecutionError>(e) && final(self)@ == old(self)@,
            },
    {
        proof {
            reveal(step);
        }
        let depth = self.stack.len();
        let needed: usize = match op {
            Operation::Noop | Operation::Pad | Operation::Push(_) | Operation::AdvPop => 0,
            Operation::Assert(_)
            | Operation::Neg
            | Operation::Incr
            | Operation::Not
            | Operation::Eqz
            | Operation::U32split
            | Operation::Drop
            | Operation::Dup0 => 1,
            Operation::Add
            | Operation::Mul
            | Operation::And
            | Operation::Eq
            | Operation::U32add
            | Operation::U32sub
            | Operation::U32mul
            | Operation::U32div
            | Operation::U32and
            | Operation::U32or
            | Operation::U32xor
            | Operation::U32assert2(_)
            | Operation::Swap
            | Operation::Dup1 => 2,
            Operation::Dup2 | Operation::CSwap => 3,
            Operation::Dup3 | Operation::MovUp3 | Operation::Expacc => 4,
        };
        if depth < needed {
            return Err(ExecutionError::StackUnderflow);
        }
        match op {
            Operation::Noop => {},
            Operation::Assert(err_code) => {
                let x0 = value_at(&self.stack, 0);
                if x0.as_int() != 1 {
                    return Err(ExecutionError::FailedAssertion(err_code));
                }
                drop_top(&mut self.stack, 1);
            },
            Operation::Add => {
                let x0 = value_at(&self.stack, 0);
                let x1 = value_at(&self.stack, 1);
                set_top1(&mut self.stack, 2, x1.plus(x0));
            },
            Operation::Neg => {
                let x0 = value_at(&self.stack, 0);
                set_top1(&mut self.stack, 1, x0.neg());
            },
            Operation::Mul => {
                let x0 = value_at(&self.stack, 0);
                let x1 = value_at(&self.stack, 1);
                set_top1(&mut self.stack, 2, x1.times(x0));
            },
            Operation::Incr => {
                let x0 = value_at(&self.stack, 0);
                set_top1(&mut self.stack, 1, x0.plus(Felt::one()));
            },
            Operation::And => {
                let x0 = value_at(&self.stack, 0);
                let x1 = value_at(&self.stack, 1);
                if x0.as_int() > 1 {
                    return Err(ExecutionError::NotBinaryValue(x0));
                }
                if x1.as_int() > 1 {
                    return Err(ExecutionError::NotBinaryValue(x1));
                }
                let both = x0.as_int() == 1 && x1.as_int() == 1;
                set_top1(&mut self.stack, 2, flag_of(both));
            },
            Operation::Not => {
                let x0 = value_at(&self.stack, 0);
                if x0.as_int() > 1 {
                    return Err(ExecutionError::NotBinaryValue(x0));
                }
                set_top1(&mut self.stack, 1, flag_of(x0.as_int() == 0));
            },
            Operation::Eq => {
                let x0 = value_at(&self.stack, 0);
                let x1 = value_at(&self.stack, 1);
                set_top1(&mut self.stack, 2, flag_of(x0 == x1));
            },
            Operation::Eqz => {
                let x0 = value_at(&self.stack, 0);
                set_top1(&mut self.stack, 1, flag_of(x0.as_int() == 0));
            },
            Operation::Expacc => {
                let base = value_at(&self.stack, 1);
                let acc = value_at(&self.stack, 2);
                let exp = value_at(&self.stack, 3).as_int();
                let bit = exp % 2;
                let next_acc = if bit == 1 {
                    acc.times(base)
                } else {
                    acc
                };
                set_top4(
                    &mut self.stack,
                    Felt::new(exp / 2),
                    next_acc,
                    base.times(base),
                    Felt::new(bit),
                );
            },
            Operation::U32split => {
                let x0 = value_at(&self.stack, 0).as_int();
                set_top2(
                    &mut self.stack,
                    1,
                    Felt::new(x0 % 0x1_0000_0000),
                    Felt::new(x0 / 0x1_0000_0000),
                );
            },
            Operation::U32add => {
                let x0 = value_at(&self.stack, 0);
                let x1 = value_at(&self.stack, 1);
                let sum = x1.plus(x0).as_int();
                set_top2(
                    &mut self.stack,
                    2,
                    Felt::new(sum % 0x1_0000_0000),
                    Felt::new(sum / 0x1_0000_0000),
                );
            },
            Operation::U32sub => {
                let b = value_at(&self.stack, 0).as_int();
                let a = value_at(&self.stack, 1).as_int();
                let difference: u64 = if a >= b {
                    (a - b) % 0x1_0000_0000
                } else {
                    let excess = (b - a) % 0x1_0000_0000;
                    if excess == 0 {
                        0
                    } else {
                        0x1_0000_0000 - excess
                    }
                };
                set_top2(&mut self.stack, 2, Felt::new(difference), flag_of(a < b));
            },
            Operation::U32mul => {
                let x0 = value_at(&self.stack, 0);
                let x1 = value_at(&self.stack, 1);
                let product = x1.times(x0).as_int();
                set_top2(
                    &mut self.stack,
                    2,
                    Felt::new(product % 0x1_0000_0000),
                    Felt::new(product / 0x1_0000_0000),
                );
            },
            Operation::U32div => {
                let b = value_at(&self.stack, 0).as_int();
                let a = value_at(&self.stack, 1).as_int();
                if b == 0 {
                    return Err(ExecutionError::DivideByZero);
                }
                set_top2(&mut self.stack, 2, Felt::new(a / b), Felt::new(a % b));
            },
            Operation::U32and => {
                self.execute_bitwise(BitwiseOp::And);
            },
            Operation::U32or => {
                self.execute_bitwise(BitwiseOp::Or);
            },
            Operation::U32xor => {
                self.execute_bitwise(BitwiseOp::Xor);
            },
            Operation::U32assert2(err_code) => {
                let x0 = value_at(&self.stack, 0);
                let x1 = value_at(&self.stack, 1);
                if x0.as_int() >= 0x1_0000_0000 {
                    return Err(ExecutionError::NotU32Value(x0, err_code));
                }
                if x1.as_int() >= 0x1_0000_0000 {
                    return Err(ExecutionError::NotU32Value(x1, err_code));
                }
            },
            Operation::Pad => {
                self.stack.push(Felt::zero());
            },
            Operation::Drop => {
                drop_top(&mut self.stack, 1);
            },
            Operation::Dup0 => {
                let x0 = value_at(&self.stack, 0);
                self.stack.push(x0);
            },
            Operation::Dup1 => {
                let x1 = value_at(&self.stack, 1);
                self.stack.push(x1);
            },
            Operation::Dup2 => {
                let x2 = value_at(&self.stack, 2);
                self.stack.push(x2);
            },
            Operation::Dup3 => {
                let x3 = value_at(&self.stack, 3);
                self.stack.push(x3);
            },
            Operation::Swap => {
                let x0 = value_at(&self.stack, 0);
                let x1 = value_at(&self.stack, 1);
                set_top2(&mut self.stack, 2, x0, x1);
            },
            Operation::MovUp3 => {
                let x0 = value_at(&self.stack, 0);
                let x1 = value_at(&self.stack, 1);
                let x2 = value_at(&self.stack, 2);
                let x3 = value_at(&self.stack, 3);
                set_top4(&mut self.stack, x2, x1, x0, x3);
            },
            Operation::CSwap => {
                let x0 = value_at(&self.stack, 0);
                let x1 = value_at(&self.stack, 1);
                let x2 = value_at(&self.stack, 2);
                if x0.as_int() == 0 {
                    set_top2(&mut self.stack, 3, x2, x1);
                } else if x0.as_int() == 1 {
                    set_top2(&mut self.stack, 3, x1, x2);
                } else {
                    return Err(ExecutionError::NotBinaryValue(x0));
                }
            },
            Operation::Push(value) => {
                self.stack.push(value);
            },
            Operation::AdvPop => {
                match self.advice.pop() {
                    Some(value) => {
                        self.stack.push(value);
                        assert(self.advice@ =~= old(self).advice@.drop_last());
                    },
                    None => {
                        return Err(ExecutionError::AdviceStackReadFailed);
                    },
                }
            },
        }
        Ok(())
    }

    /// Runs the operations in their order until one fails or none is left.
    /// After a failure the machine is as the failing operation found it.
    pub fn execute(&mut self, ops: &Vec<Operation>) -> (r: Result<(), ExecutionError>)
        requires
            old(self).wf(),
        ensures
            final(self).wf(),
            final(self)@ == run(old(self)@, ops@).state,
            match r {
                Ok(_) => run(old(self)@, ops@).error is None,
                Err(e) => run(old(self)@, ops@).error == Some(e),
            },
    {
        let mut i: usize = 0;
        while i < ops.len()
            invariant
                i <= ops@.len(),
                self.wf(),
                run_from(self@, ops@, i as int) == run(old(self)@, ops@),
            decreases ops@.len() - i,
        {
            proof {
                reveal(run_from);
            }
            match self.execute_op(ops[i]) {
                Ok(_) => {},
                Err(e) => {
                    return Err(e);
                },
            }
            i = i + 1;
        }
        proof {
            reveal(run_from);
        }
        Ok(())
    }
}

} // verus!
