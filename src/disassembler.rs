use crate::chunk::{
    decode_opcode, opcode_of, width, Chunk, ChunkView, OpCode, OP_CONSTANT,
};
use crate::value::Value;
use vstd::prelude::*;

verus! {

/// One decoded instruction, as a listing shows it.
#[derive(Clone, Copy, Debug, PartialEq, Eq, Structural)]
pub enum Instruction {
    /// An opcode without operands.
    Simple(OpCode),
    /// A constant load: the operand byte and the constant it resolves to.
    Constant { index: u8, value: Value },
    /// A byte that encodes no opcode.
    Unknown(u8),
}

/// One line of a listing. `line` is `None` where the source line repeats
/// the one of the byte before, which a listing shows as a placeholder.
#[derive(Clone, Copy, Debug, PartialEq, Eq, Structural)]
pub struct Disassembled {
    pub offset: usize,
    pub line: Option<u32>,
    pub instruction: Instruction,
    pub next: usize,
}

/// An instruction starts at `offset` and all of it can be read: a constant
/// load has its operand, and the operand addresses the pool.
pub open spec fn decodable(c: ChunkView, offset: int) -> bool {
    &&& 0 <= offset < c.code.len()
    &&& c.code[offset] == OP_CONSTANT ==> {
        &&& offset + 1 < c.code.len()
        &&& (c.code[offset + 1] as int) < c.constants.len()
    }
}

/// The source line a listing shows at `offset`: none where it repeats the
/// line of the byte before.
pub open spec fn line_shown(c: ChunkView, offset: int) -> Option<u32> {
    if offset > 0 && c.lines[offset] == c.lines[offset - 1] {
        None
    } else {
        Some(c.lines[offset])
    }
}

pub open spec fn instruction_at(c: ChunkView, offset: int) -> Instruction {
    let b = c.code[offset];
    match opcode_of(b) {
        Some(OpCode::Constant) => Instruction::Constant {
            index: c.code[offset + 1],
            value: c.constants[c.code[offset + 1] as int],
        },
        Some(op) => Instruction::Simple(op),
        None => Instruction::Unknown(b),
    }
}

pub open spec fn disassembly_at(c: ChunkView, offset: int) -> Disassembled {
    Disassembled {
        offset: offset as usize,
        line: line_shown(c, offset),
        instruction: instruction_at(c, offset),
        next: (offset + width(c.code[offset])) as usize,
    }
}

/// The listing of a chunk from `offset` on: one entry per instruction, up to
/// the end of the code or the first instruction that cannot be read.
pub open spec fn listing(c: ChunkView, offset: int) -> Seq<Disassembled>
    decreases c.code.len() - offset,
{
    if decodable(c, offset) {
        seq![disassembly_at(c, offset)] + listing(c, offset + width(c.code[offset]))
    } else {
        Seq::empty()
    }
}

/// Of two adjacent instructions, the second shows the placeholder in place
/// of its line exactly when its line equals the first's, and its own line
/// otherwise. The first shows its own line too where it starts the chunk or
/// starts a new line itself. The bytes of the first instruction are taken to
/// carry one line, as a chunk built instruction by instruction has them.
pub proof fn lemma_line_suppression(c: ChunkView, first: int)
    requires
        c.wf(),
        decodable(c, first),
        decodable(c, first + width(c.code[first])),
        forall|i: int| first <= i < first + width(c.code[first]) ==> c.lines[i] == c.lines[first],
    ensures
        ({
            let a = disassembly_at(c, first);
            let b = disassembly_at(c, a.next as int);
            &&& a.next as int == first + width(c.code[first])
            &&& c.lines[a.next as int] == c.lines[first] ==> b.line is None
            &&& c.lines[a.next as int] != c.lines[first] ==> b.line == Some(c.lines[a.next as int])
            &&& (c.lines[a.next as int] != c.lines[first] && (first == 0 || c.lines[first - 1]
                != c.lines[first])) ==> a.line == Some(c.lines[first])
        }),
{
    let next = first + width(c.code[first]);
    assert(c.lines[next - 1] == c.lines[first]);
}

impl Chunk {
    /// Decodes the one instruction that starts at `offset`.
    pub fn disassemble_instruction(&self, offset: usize) -> (r: Option<Disassembled>)
        requires
            self.wf(),
        ensures
            decodable(self@, offset as int) ==> r == Some(disassembly_at(self@, offset as int)),
            !decodable(self@, offset as int) ==> r.is_none(),
    {
        if offset >= self.count() {
            return None;
        }
        let byte = self.read_byte(offset);
        let line = self.read_line(offset);
        let shown = if offset > 0 && line == self.read_line(offset - 1) {
            None
        } else {
            Some(line)
        };
        let (instruction, next) = match decode_opcode(byte) {
            Some(OpCode::Constant) => {
                if offset + 1 >= self.count() {
                    return None;
                }
                let index = self.read_byte(offset + 1);
                if index as usize >= self.constant_count() {
                    return None;
                }
                let value = self.read_constant(index as usize);
                (Instruction::Constant { index, value }, offset + 2)
            },
            Some(op) => (Instruction::Simple(op), offset + 1),
            None => (Instruction::Unknown(byte), offset + 1),
        };
        Some(Disassembled { offset, line: shown, instruction, next })
    }

    /// Decodes every instruction of the chunk, from the start, in order.
    pub fn disassemble(&self) -> (r: Vec<Disassembled>)
        requires
            self.wf(),
        ensures
            r@ == listing(self@, 0),
    {
        let mut out: Vec<Disassembled> = Vec::new();
        let mut offset: usize = 0;
        loop
            invariant
                self.wf(),
                offset <= self@.code.len(),
                out@ + listing(self@, offset as int) == listing(self@, 0),
            decreases self@.code.len() - offset,
        {
            match self.disassemble_instruction(offset) {
                Some(d) => {
                    assert(decodable(self@, offset as int));
                    assert(d.next as int == offset + width(self@.code[offset as int]));
                    assert(listing(self@, offset as int) == seq![d] + listing(
                        self@,
                        d.next as int,
                    ));
                    assert(out@.push(d) + listing(self@, d.next as int) =~= out@ + (seq![d]
                        + listing(self@, d.next as int)));
                    out.push(d);
                    offset = d.next;
                },
                None => {
                    assert(out@ + listing(self@, offset as int) =~= out@);
                    return out;
                },
            }
        }
    }
}

} // verus!
