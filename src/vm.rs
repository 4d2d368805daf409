use crate::chunk::{decode_opcode, opcode_of, Chunk, ChunkView, OpCode};
use crate::value::Value;
use vstd::prelude::*;

verus! {

/// The capacity of the operand stack.
pub const STACK_MAX: usize = 256;

/// How a run ends.
#[derive(Clone, Copy, Debug, PartialEq, Eq, Structural)]
pub enum InterpretResult {
    /// A `RETURN` was executed.
    InterpretOk,
    /// A byte that encodes no opcode was met.
    InterpretCompileError,
    /// The code ran out, the stack over- or underflowed, or a constant load
    /// could not be read.
    InterpretRuntimeError,
}

/// An arithmetic operation with its operands, in source order: for the
/// binary ones the left operand comes first.
#[derive(Clone, Copy, Debug, PartialEq, Eq, Structural)]
pub enum Arith {
    Negate(Value),
    Add(Value, Value),
    Subtract(Value, Value),
    Multiply(Value, Value),
    Divide(Value, Value),
}

/// What one executed instruction asks of the driver.
#[derive(Clone, Copy, Debug, PartialEq, Eq, Structural)]
pub enum Step {
    /// The instruction is done; the next one is due.
    Next,
    /// The operands were popped; the driver computes the result and hands it
    /// back through `resume`.
    Compute(Arith),
    /// `RETURN` popped this value, which the driver reports; the run ends
    /// with `InterpretOk`.
    Return(Value),
    /// The run ends with this outcome.
    Halt(InterpretResult),
}

/// The outcome that a step ends the run with, if it ends it.
pub open spec fn outcome_of(s: Step) -> Option<InterpretResult> {
    match s {
        Step::Return(_) => Some(InterpretResult::InterpretOk),
        Step::Halt(r) => Some(r),
        _ => None,
    }
}

impl Step {
    pub fn outcome(&self) -> (r: Option<InterpretResult>)
        ensures
            r == outcome_of(*self),
    {
        match self {
            Step::Return(_) => Some(InterpretResult::InterpretOk),
            Step::Halt(r) => Some(*r),
            _ => None,
        }
    }
}

/// The arithmetic that a binary opcode asks for, with `a` as left operand.
pub open spec fn binary_arith(op: OpCode, a: Value, b: Value) -> Arith {
    match op {
        OpCode::Add => Arith::Add(a, b),
        OpCode::Subtract => Arith::Subtract(a, b),
        OpCode::Multiply => Arith::Multiply(a, b),
        _ => Arith::Divide(a, b),
    }
}

/// The state of a machine: the chunk it owns, the offset of the next
/// instruction, and the operand stack, bottom first.
pub struct VMView {
    pub chunk: ChunkView,
    pub ip: int,
    pub stack: Seq<Value>,
}

impl VMView {
    pub open spec fn wf(self) -> bool {
        &&& self.chunk.wf()
        &&& 0 <= self.ip <= self.chunk.code.len()
        &&& self.stack.len() <= STACK_MAX
    }
}

/// What executing the instruction at `ip` does: the next `ip`, the new
/// stack, and what the driver is asked to do.
pub open spec fn transition(c: ChunkView, ip: int, stack: Seq<Value>) -> (int, Seq<Value>, Step) {
    let halt = Step::Halt(InterpretResult::InterpretRuntimeError);
    if ip >= c.code.len() {
        (ip, stack, halt)
    } else {
        let next = ip + 1;
        let n = stack.len();
        match opcode_of(c.code[ip]) {
            None => (next, stack, Step::Halt(InterpretResult::InterpretCompileError)),
            Some(OpCode::Return) => if n == 0 {
                (next, stack, halt)
            } else {
                (next, stack.drop_last(), Step::Return(stack.last()))
            },
            Some(OpCode::Constant) => if next >= c.code.len() || c.code[next] as int
                >= c.constants.len() || n >= STACK_MAX {
                (next, stack, halt)
            } else {
                (next + 1, stack.push(c.constants[c.code[next] as int]), Step::Next)
            },
            Some(OpCode::Negate) => if n == 0 {
                (next, stack, halt)
            } else {
                (next, stack.drop_last(), Step::Compute(Arith::Negate(stack.last())))
            },
            Some(op) => if n < 2 {
                (next, stack, halt)
            } else {
                (
                    next,
                    stack.subrange(0, n - 2),
                    Step::Compute(binary_arith(op, stack[n - 2], stack[n - 1])),
                )
            },
        }
    }
}

/// `RETURN` on a non-empty stack ends the run with `InterpretOk`, handing
/// out the top value and leaving one value fewer on the stack.
pub proof fn lemma_return_pops_one(c: ChunkView, ip: int, stack: Seq<Value>)
    requires
        0 <= ip < c.code.len(),
        opcode_of(c.code[ip]) == Some(OpCode::Return),
        stack.len() > 0,
    ensures
        ({
            let (_, after, step) = transition(c, ip, stack);
            &&& outcome_of(step) == Some(InterpretResult::InterpretOk)
            &&& step == Step::Return(stack.last())
            &&& after.len() == stack.len() - 1
            &&& after == stack.drop_last()
        }),
{
}

/// A byte that encodes no opcode ends the run with `InterpretCompileError`,
/// wherever it stands and whatever the stack holds.
pub proof fn lemma_unknown_opcode_halts(c: ChunkView, ip: int, stack: Seq<Value>)
    requires
        0 <= ip < c.code.len(),
        opcode_of(c.code[ip]) is None,
    ensures
        transition(c, ip, stack).2 == Step::Halt(InterpretResult::InterpretCompileError),
        outcome_of(transition(c, ip, stack).2) == Some(InterpretResult::InterpretCompileError),
{
}

/// A stack machine that owns one chunk at a time and executes it one
/// instruction per call of `step`. It decodes, checks and moves values;
/// the arithmetic on them is left to the driver, which answers each
/// `Compute` step through `resume`.
pub struct VM {
    chunk: Chunk,
    ip: usize,
    stack: Vec<Value>,
}

impl View for VM {
    type V = VMView;

    closed spec fn view(&self) -> VMView {
        VMView { chunk: self.chunk@, ip: self.ip as int, stack: self.stack@ }
    }
}

impl VM {
    pub open spec fn wf(&self) -> bool {
        self@.wf()
    }

    pub fn new() -> (r: VM)
        ensures
            r.wf(),
            r@.chunk.code.len() == 0,
            r@.chunk.constants.len() == 0,
            r@.ip == 0,
            r@.stack == Seq::<Value>::empty(),
    {
        VM { chunk: Chunk::new(), ip: 0, stack: Vec::new() }
    }

    /// Takes the chunk over and starts it from its first byte, on an empty
    /// stack. The driver then calls `step` until a step ends the run.
    pub fn interpret(&mut self, chunk: Chunk)
        requires
            chunk.wf(),
        ensures
            final(self).wf(),
            final(self)@.chunk == chunk@,
            final(self)@.ip == 0,
            final(self)@.stack == Seq::<Value>::empty(),
    {
        self.chunk = chunk;
        self.ip = 0;
        self.stack = Vec::new();
    }

    pub fn ip(&self) -> (r: usize)
        ensures
            r == self@.ip,
    {
        self.ip
    }

    pub fn chunk(&self) -> (r: &Chunk)
        ensures
            r@ == self@.chunk,
    {
        &self.chunk
    }

    /// The operand stack, bottom first.
    pub fn stack(&self) -> (r: &Vec<Value>)
        ensures
            r@ == self@.stack,
    {
        &self.stack
    }

    fn push(&mut self, value: Value)
        requires
            old(self).wf(),
            old(self)@.stack.len() < STACK_MAX,
        ensures
            final(self).wf(),
            final(self)@ == (VMView { stack: old(self)@.stack.push(value), ..old(self)@ }),
    {
        self.stack.push(value);
    }

    fn pop(&mut self) -> (r: Value)
        requires
            old(self).wf(),
            old(self)@.stack.len() > 0,
        ensures
            final(self).wf(),
            r == old(self)@.stack.last(),
            final(self)@ == (VMView { stack: old(self)@.stack.drop_last(), ..old(self)@ }),
    {
        self.stack.pop().unwrap()
    }

    /// Pops the right operand, then the left one, and names the operation.
    fn binary_op(&mut self, op: OpCode) -> (r: Arith)
        requires
            old(self).wf(),
            old(self)@.stack.len() >= 2,
            op == OpCode::Add || op == OpCode::Subtract || op == OpCode::Multiply || op
                == OpCode::Divide,
        ensures
            final(self).wf(),
            ({
                let s = old(self)@.stack;
                &&& r == binary_arith(op, s[s.len() - 2], s[s.len() - 1])
                &&& final(self)@ == (VMView { stack: s.subrange(0, s.len() - 2), ..old(self)@ })
            }),
    {
        let b = self.pop();
        let a = self.pop();
        proof {
            let s = old(self)@.stack;
            assert(self@.stack =~= s.subrange(0, s.len() - 2));
        }
        match op {
            OpCode::Add => Arith::Add(a, b),
            OpCode::Subtract => Arith::Subtract(a, b),
            OpCode::Multiply => Arith::Multiply(a, b),
            _ => Arith::Divide(a, b),
        }
    }

    /// Executes the instruction at `ip`.
    pub fn step(&mut self) -> (r: Step)
        requires
            old(self).wf(),
        ensures
            final(self).wf(),
            final(self)@.chunk == old(self)@.chunk,
            (final(self)@.ip, final(self)@.stack, r) == transition(
                old(self)@.chunk,
                old(self)@.ip,
                old(self)@.stack,
            ),
            r is Compute ==> final(self)@.stack.len() < STACK_MAX,
    {
        let halt = Step::Halt(InterpretResult::InterpretRuntimeError);
        let len = self.chunk.count();
        if self.ip >= len {
            return halt;
        }
        let instruction = self.chunk.read_byte(self.ip);
        self.ip = self.ip + 1;
        let n = self.stack.len();
        match decode_opcode(instruction) {
            None => Step::Halt(InterpretResult::InterpretCompileError),
            Some(OpCode::Return) => {
                if n == 0 {
                    return halt;
                }
                Step::Return(self.pop())
            },
            Some(OpCode::Constant) => {
                if self.ip >= len {
                    return halt;
                }
                let index = self.chunk.read_byte(self.ip);
                if index as usize >= self.chunk.constant_count() || n >= STACK_MAX {
                    return halt;
                }
                let constant = self.chunk.read_constant(index as usize);
                self.ip = self.ip + 1;
                self.push(constant);
                Step::Next
            },
            Some(OpCode::Negate) => {
                if n == 0 {
                    return halt;
                }
                Step::Compute(Arith::Negate(self.pop()))
            },
            Some(op) => {
                if n < 2 {
                    return halt;
                }
                Step::Compute(self.binary_op(op))
            },
        }
    }

    /// Pushes the result of an arithmetic step. Refused, with the stack left
    /// as it is, where the stack is full.
    pub fn resume(&mut self, value: Value) -> (pushed: bool)
        requires
            old(self).wf(),
        ensures
            final(self).wf(),
            pushed == (old(self)@.stack.len() < STACK_MAX),
            pushed ==> final(self)@ == (VMView { stack: old(self)@.stack.push(value), ..old(self)@ }),
            !pushed ==> final(self)@ == old(self)@,
    {
        if self.stack.len() >= STACK_MAX {
            return false;
        }
        self.push(value);
        true
    }
}

} // verus!
