//! Compiled code: the builder that instructions append to, and the block it
//! yields.
use vstd::prelude::*;
use crate::advice::AdviceInjector;
use crate::errors::AssemblyError;
use crate::operation::Operation;

verus! {

/// What a span holds: its operations in the order in which they run, and the
/// advice injectors, each with the position of the operation before which it
/// takes effect.
pub struct SpanView {
    pub ops: Seq<Operation>,
    pub decorators: Seq<(usize, AdviceInjector)>,
}

/// An immutable sequence of operations, with the advice injectors that go
/// with it.
#[derive(Clone, Debug)]
pub struct CodeBlock {
    ops: Vec<Operation>,
    decorators: Vec<(usize, AdviceInjector)>,
}

/// The accumulator of the operations that a run of instructions compiles to.
/// Operations can only be appended; [`SpanBuilder::finish`] turns the
/// accumulator into a [`CodeBlock`].
#[derive(Debug)]
pub struct SpanBuilder {
    ops: Vec<Operation>,
    decorators: Vec<(usize, AdviceInjector)>,
}

impl View for CodeBlock {
    type V = SpanView;

    closed spec fn view(&self) -> SpanView {
        SpanView { ops: self.ops@, decorators: self.decorators@ }
    }
}

impl View for SpanBuilder {
    type V = SpanView;

    closed spec fn view(&self) -> SpanView {
        SpanView { ops: self.ops@, decorators: self.decorators@ }
    }
}

impl CodeBlock {
    /// The operations of the block, in the order in which they run.
    pub fn operations(&self) -> (ops: &Vec<Operation>)
        ensures
            ops@ == self@.ops,
    {
        &self.ops
    }

    /// The advice injectors of the block, each with the position of the
    /// operation before which it takes effect.
    pub fn decorators(&self) -> (decorators: &Vec<(usize, AdviceInjector)>)
        ensures
            decorators@ == self@.decorators,
    {
        &self.decorators
    }
}

impl SpanBuilder {
    /// A builder that holds nothing yet.
    pub fn new() -> (span: SpanBuilder)
        ensures
            span@.ops == Seq::<Operation>::empty(),
            span@.decorators == Seq::<(usize, AdviceInjector)>::empty(),
    {
        SpanBuilder { ops: Vec::new(), decorators: Vec::new() }
    }

    /// Appends one operation.
    pub fn push_op(&mut self, op: Operation)
        ensures
            final(self)@.ops == old(self)@.ops.push(op),
            final(self)@.decorators == old(self)@.decorators,
    {
        self.ops.push(op);
    }

    /// Appends the given operations in their order.
    pub fn push_ops<const N: usize>(&mut self, ops: [Operation; N])
        ensures
            final(self)@.ops == old(self)@.ops + ops@,
            final(self)@.decorators == old(self)@.decorators,
    {
        let mut i: usize = 0;
        while i < N
            invariant
                i <= N,
                ops@.len() == N,
                self.ops@ == old(self).ops@ + ops@.subrange(0, i as int),
                self.decorators@ == old(self).decorators@,
            decreases N - i,
        {
            self.ops.push(ops[i]);
            i = i + 1;
        }
        assert(ops@.subrange(0, N as int) =~= ops@);
    }

    /// Appends one operation; no separate block comes of it.
    pub fn add_op(&mut self, op: Operation) -> (r: Result<Option<CodeBlock>, AssemblyError>)
        ensures
            r matches Ok(None),
            final(self)@.ops == old(self)@.ops.push(op),
            final(self)@.decorators == old(self)@.decorators,
    {
        self.push_op(op);
        Ok(None)
    }

    /// Appends the given operations in their order; no separate block comes
    /// of it.
    pub fn add_ops<const N: usize>(&mut self, ops: [Operation; N]) -> (r: Result<
        Option<CodeBlock>,
        AssemblyError,
    >)
        ensures
            r matches Ok(None),
            final(self)@.ops == old(self)@.ops + ops@,
            final(self)@.decorators == old(self)@.decorators,
    {
        self.push_ops(ops);
        Ok(None)
    }

    /// Records that the injector takes effect before the operation that is
    /// appended next.
    pub fn push_advice_injector(&mut self, injector: AdviceInjector)
        ensures
            final(self)@.ops == old(self)@.ops,
            final(self)@.decorators == old(self)@.decorators.push(
                (old(self)@.ops.len() as usize, injector),
            ),
    {
        let position = self.ops.len();
        self.decorators.push((position, injector));
    }

    /// The block of everything that was appended.
    pub fn finish(self) -> (block: CodeBlock)
        ensures
            block@ == self@,
    {
        CodeBlock { ops: self.ops, decorators: self.decorators }
    }
}

} // verus!
