use crate::value::{Value, ValueArray};
use vstd::prelude::*;

verus! {

pub const OP_RETURN: u8 = 1;

pub const OP_CONSTANT: u8 = 2;

pub const OP_NEGATE: u8 = 3;

pub const OP_ADD: u8 = 4;

pub const OP_SUBTRACT: u8 = 5;

pub const OP_MULTIPLY: u8 = 6;

pub const OP_DIVIDE: u8 = 7;

/// The most constants a pool holds. A `CONSTANT` operand is one byte wide,
/// so a pool cannot grow without bound; adding one more is an error.
pub const MAX_CONSTANTS: usize = 255;

/// The recognised opcodes.
#[derive(Clone, Copy, Debug, PartialEq, Eq, Structural)]
pub enum OpCode {
    Return,
    Constant,
    Negate,
    Add,
    Subtract,
    Multiply,
    Divide,
}

/// The opcode that a byte encodes, if any.
pub open spec fn opcode_of(byte: u8) -> Option<OpCode> {
    if byte == OP_RETURN {
        Some(OpCode::Return)
    } else if byte == OP_CONSTANT {
        Some(OpCode::Constant)
    } else if byte == OP_NEGATE {
        Some(OpCode::Negate)
    } else if byte == OP_ADD {
        Some(OpCode::Add)
    } else if byte == OP_SUBTRACT {
        Some(OpCode::Subtract)
    } else if byte == OP_MULTIPLY {
        Some(OpCode::Multiply)
    } else if byte == OP_DIVIDE {
        Some(OpCode::Divide)
    } else {
        None
    }
}

/// The number of bytes an instruction takes, judged by its first byte. An
/// unknown byte counts as one, so that a listing can go on past it.
pub open spec fn width(byte: u8) -> nat {
    if byte == OP_CONSTANT {
        2
    } else {
        1
    }
}

pub fn decode_opcode(byte: u8) -> (r: Option<OpCode>)
    ensures
        r == opcode_of(byte),
{
    if byte == OP_RETURN {
        Some(OpCode::Return)
    } else if byte == OP_CONSTANT {
        Some(OpCode::Constant)
    } else if byte == OP_NEGATE {
        Some(OpCode::Negate)
    } else if byte == OP_ADD {
        Some(OpCode::Add)
    } else if byte == OP_SUBTRACT {
        Some(OpCode::Subtract)
    } else if byte == OP_MULTIPLY {
        Some(OpCode::Multiply)
    } else if byte == OP_DIVIDE {
        Some(OpCode::Divide)
    } else {
        None
    }
}

/// What a chunk holds: its code, the source line of each code byte, and its
/// constant pool.
pub struct ChunkView {
    pub code: Seq<u8>,
    pub lines: Seq<u32>,
    pub constants: Seq<Value>,
}

impl ChunkView {
    /// One line entry per code byte, a code length that fits a `usize`, and
    /// a pool that one-byte operands can address.
    pub open spec fn wf(self) -> bool {
        &&& self.lines.len() == self.code.len()
        &&& self.code.len() <= usize::MAX
        &&& self.constants.len() <= MAX_CONSTANTS
    }
}

/// What `add_constant` does to a chunk: below the pool's limit the value is
/// appended and its index returned; at the limit the call fails and the pool
/// stays as it was. Code and lines are untouched either way.
pub open spec fn constant_added(
    before: ChunkView,
    after: ChunkView,
    value: Value,
    r: Result<u8, ChunkError>,
) -> bool {
    &&& before.constants.len() < MAX_CONSTANTS ==> {
        &&& r == Ok::<u8, ChunkError>(before.constants.len() as u8)
        &&& after.constants == before.constants.push(value)
    }
    &&& before.constants.len() >= MAX_CONSTANTS ==> {
        &&& r == Err::<u8, ChunkError>(ChunkError::TooManyConstants)
        &&& after.constants == before.constants
    }
    &&& after.code == before.code
    &&& after.lines == before.lines
}

proof fn lemma_pool_prefix(
    states: Seq<ChunkView>,
    values: Seq<Value>,
    results: Seq<Result<u8, ChunkError>>,
    j: int,
)
    requires
        states.len() == values.len() + 1,
        results.len() == values.len(),
        values.len() <= MAX_CONSTANTS,
        states[0].constants.len() == 0,
        forall|i: int|
            0 <= i < values.len() ==> constant_added(
                #[trigger] states[i],
                states[i + 1],
                values[i],
                results[i],
            ),
        0 <= j < states.len(),
    ensures
        states[j].constants =~= values.take(j),
    decreases j,
{
    if j > 0 {
        lemma_pool_prefix(states, values, results, j - 1);
        assert(constant_added(states[j - 1], states[j], values[j - 1], results[j - 1]));
        assert(values.take(j) =~= values.take(j - 1).push(values[j - 1]));
    }
}

/// Constants are numbered in the order they are added and never move: on a
/// chunk whose pool starts empty, the k-th of a run of `add_constant` calls
/// returns `k - 1`, and every later pool holds that value at that index. The
/// run stays within the pool's limit, past which the call fails.
pub proof fn lemma_constant_index_stable(
    states: Seq<ChunkView>,
    values: Seq<Value>,
    results: Seq<Result<u8, ChunkError>>,
)
    requires
        states.len() == values.len() + 1,
        results.len() == values.len(),
        values.len() <= MAX_CONSTANTS,
        states[0].constants.len() == 0,
        forall|i: int|
            0 <= i < values.len() ==> constant_added(
                #[trigger] states[i],
                states[i + 1],
                values[i],
                results[i],
            ),
    ensures
        forall|k: int| 0 <= k < values.len() ==> #[trigger] results[k] == Ok::<u8, ChunkError>(k as u8),
        forall|k: int, j: int|
            0 <= k < j < states.len() ==> #[trigger] states[j].constants[k] == values[k],
{
    assert forall|k: int| 0 <= k < values.len() implies #[trigger] results[k] == Ok::<u8, ChunkError>(k as u8) by {
        lemma_pool_prefix(states, values, results, k);
        assert(constant_added(states[k], states[k + 1], values[k], results[k]));
    }
    assert forall|k: int, j: int| 0 <= k < j < states.len() implies #[trigger] states[j].constants[k] == values[k] by {
        lemma_pool_prefix(states, values, results, j);
    }
}

/// A unit of compiled program: bytecode, the source line of every byte, and
/// the constants that the bytecode refers to by index.
pub struct Chunk {
    code: Vec<u8>,
    lines: Vec<u32>,
    constants: ValueArray,
}

impl View for Chunk {
    type V = ChunkView;

    closed spec fn view(&self) -> ChunkView {
        ChunkView { code: self.code@, lines: self.lines@, constants: self.constants@ }
    }
}

impl Chunk {
    pub open spec fn wf(&self) -> bool {
        self@.wf()
    }

    pub fn new() -> (r: Chunk)
        ensures
            r.wf(),
            r@.code == Seq::<u8>::empty(),
            r@.lines == Seq::<u32>::empty(),
            r@.constants == Seq::<Value>::empty(),
    {
        Chunk { code: Vec::new(), lines: Vec::new(), constants: ValueArray::new() }
    }

    pub fn count(&self) -> (r: usize)
        ensures
            r == self@.code.len(),
    {
        self.code.len()
    }

    pub fn constant_count(&self) -> (r: usize)
        ensures
            r == self@.constants.len(),
    {
        self.constants.count()
    }

    pub fn read_byte(&self, ip: usize) -> (r: u8)
        requires
            ip < self@.code.len(),
        ensures
            r == self@.code[ip as int],
    {
        self.code[ip]
    }

    pub fn read_line(&self, offset: usize) -> (r: u32)
        requires
            self.wf(),
            offset < self@.code.len(),
        ensures
            r == self@.lines[offset as int],
    {
        self.lines[offset]
    }

    pub fn read_constant(&self, idx: usize) -> (r: Value)
        requires
            idx < self@.constants.len(),
        ensures
            r == self@.constants[idx as int],
    {
        self.constants.read_constant(idx)
    }

    /// Appends one byte of code and the source line that produced it.
    pub fn write(&mut self, byte: u8, line: u32)
        requires
            old(self).wf(),
            old(self)@.code.len() < usize::MAX,
        ensures
            final(self).wf(),
            final(self)@.code == old(self)@.code.push(byte),
            final(self)@.lines == old(self)@.lines.push(line),
            final(self)@.constants == old(self)@.constants,
    {
        self.code.push(byte);
        self.lines.push(line);
    }

    /// Appends a constant to the pool and returns its index. A full pool is
    /// an error and is left unchanged.
    pub fn add_constant(&mut self, value: Value) -> (r: Result<u8, ChunkError>)
        requires
            old(self).wf(),
        ensures
            final(self).wf(),
            constant_added(old(self)@, final(self)@, value, r),
    {
        let n = self.constants.count();
        if n >= MAX_CONSTANTS {
            return Err(ChunkError::TooManyConstants);
        }
        self.constants.write(value);
        Ok(n as u8)
    }
}

/// Errors in building a chunk.
#[derive(Clone, Copy, Debug, PartialEq, Eq, Structural)]
pub enum ChunkError {
    /// The pool already holds as many constants as a one-byte operand can
    /// address.
    TooManyConstants,
}

} // verus!
