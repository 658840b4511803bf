//! A chunk: a unit of bytecode with its constant pool and, for every byte
//! of code, the source line that it came from.

use vstd::prelude::*;
use vstd::string::StringExecFns;
use crate::collections::dynarray::DynArray;
use crate::opcode::{decode, OpCode};
use crate::value::{Value, Values};

verus! {

/// What a chunk holds.
pub struct ChunkView {
    /// The instruction stream: opcodes and their operands.
    pub code: Seq<u8>,
    /// The constant pool.
    pub constants: Seq<Value>,
    /// The source line of each byte of `code`, at the same index.
    pub lines: Seq<usize>,
}

impl ChunkView {
    /// The chunk that holds nothing.
    pub open spec fn empty() -> Self {
        ChunkView { code: Seq::empty(), constants: Seq::empty(), lines: Seq::empty() }
    }

    /// Every byte of code has its line.
    pub open spec fn aligned(self) -> bool {
        self.code.len() == self.lines.len()
    }

    /// The chunk after writing one byte with its line.
    pub open spec fn write(self, byte: u8, line: usize) -> Self {
        ChunkView { code: self.code.push(byte), lines: self.lines.push(line), ..self }
    }

    /// The chunk after adding one constant.
    pub open spec fn add_constant(self, value: Value) -> Self {
        ChunkView { constants: self.constants.push(value), ..self }
    }

    /// The chunk after writing each byte of `entries` with its line, in
    /// order.
    pub open spec fn write_all(self, entries: Seq<(u8, usize)>) -> Self
        decreases entries.len(),
    {
        if entries.len() == 0 {
            self
        } else {
            self.write_all(entries.drop_last()).write(entries.last().0, entries.last().1)
        }
    }
}

/// Writing keeps code and lines in step.
pub proof fn lemma_write_aligned(chunk: ChunkView, byte: u8, line: usize)
    requires
        chunk.aligned(),
    ensures
        chunk.write(byte, line).aligned(),
        chunk.write(byte, line).lines.last() == line,
        chunk.write(byte, line).code.last() == byte,
{
}

/// Adding a constant touches neither code nor lines.
pub proof fn lemma_add_constant_aligned(chunk: ChunkView, value: Value)
    requires
        chunk.aligned(),
    ensures
        chunk.add_constant(value).aligned(),
        chunk.add_constant(value).code == chunk.code,
        chunk.add_constant(value).lines == chunk.lines,
{
}

/// The bytes of a sequence of writes.
pub open spec fn bytes_of(entries: Seq<(u8, usize)>) -> Seq<u8> {
    Seq::new(entries.len(), |i: int| entries[i].0)
}

/// The lines of a sequence of writes.
pub open spec fn lines_of(entries: Seq<(u8, usize)>) -> Seq<usize> {
    Seq::new(entries.len(), |i: int| entries[i].1)
}

/// After any sequence of writes code and lines are still in step: the code
/// is what it was, followed by the bytes written, and the lines are what
/// they were, followed by the lines supplied with those bytes.
pub proof fn lemma_write_all(chunk: ChunkView, entries: Seq<(u8, usize)>)
    requires
        chunk.aligned(),
    ensures
        chunk.write_all(entries).aligned(),
        chunk.write_all(entries).constants == chunk.constants,
        chunk.write_all(entries).code == chunk.code + bytes_of(entries),
        chunk.write_all(entries).lines == chunk.lines + lines_of(entries),
    decreases entries.len(),
{
    if entries.len() > 0 {
        let front = entries.drop_last();
        lemma_write_all(chunk, front);
        assert(chunk.code + bytes_of(entries) == (chunk.code + bytes_of(front)).push(
            entries.last().0,
        ));
        assert(chunk.lines + lines_of(entries) == (chunk.lines + lines_of(front)).push(
            entries.last().1,
        ));
    } else {
        assert(chunk.code + bytes_of(entries) == chunk.code);
        assert(chunk.lines + lines_of(entries) == chunk.lines);
    }
}

/// After `N` writes to an empty chunk it holds `N` bytes and `N` lines, and
/// at each index stand the byte written at that turn and the line supplied
/// with it.
pub proof fn lemma_writes(entries: Seq<(u8, usize)>)
    ensures
        ChunkView::empty().write_all(entries).code.len() == entries.len(),
        ChunkView::empty().write_all(entries).lines.len() == entries.len(),
        forall|i: int|
            0 <= i < entries.len() ==> {
                &&& ChunkView::empty().write_all(entries).code[i] == (#[trigger] entries[i]).0
                &&& ChunkView::empty().write_all(entries).lines[i] == entries[i].1
            },
{
    lemma_write_all(ChunkView::empty(), entries);
    assert(Seq::<u8>::empty() + bytes_of(entries) == bytes_of(entries));
    assert(Seq::<usize>::empty() + lines_of(entries) == lines_of(entries));
}

/// What follows the opcode of an instruction.
#[derive(Debug, Clone, Copy, PartialEq, Eq, Structural)]
pub enum Operand {
    /// The instruction takes no operand.
    Absent,
    /// The operand of a `Constant`: an index into the pool, and the
    /// constant that stands there.
    Constant { index: u8, value: Value },
    /// The operand of a `Constant` that names no constant of the pool.
    Dangling { index: u8 },
    /// The code ends where the operand of a `Constant` should stand.
    Missing,
}

/// One instruction of a disassembly.
#[derive(Debug, Clone, Copy, PartialEq, Eq, Structural)]
pub struct Instruction {
    /// Where in the code the instruction starts.
    pub offset: usize,
    /// The source line of the instruction, or `None` where it is the line
    /// of the byte before it: a listing shows a line once.
    pub line: Option<usize>,
    /// The byte at `offset`.
    pub byte: u8,
    /// The instruction that the byte encodes.
    pub opcode: OpCode,
    /// What follows the opcode.
    pub operand: Operand,
}

/// The listing of a chunk under a name.
#[derive(Debug, Clone, PartialEq, Eq)]
pub struct Disassembly {
    /// The name that heads the listing.
    pub name: String,
    /// The instructions, in the order of the code.
    pub instructions: Vec<Instruction>,
}

/// The line to show for the byte at `offset`: none where the byte before
/// it is on the same line.
pub open spec fn line_mark(chunk: ChunkView, offset: int) -> Option<usize> {
    if offset > 0 && chunk.lines[offset] == chunk.lines[offset - 1] {
        None
    } else {
        Some(chunk.lines[offset])
    }
}

/// The operand of the instruction at `offset`.
pub open spec fn operand_at(chunk: ChunkView, offset: int) -> Operand {
    if decode(chunk.code[offset]) != OpCode::Constant {
        Operand::Absent
    } else if offset + 1 >= chunk.code.len() {
        Operand::Missing
    } else if chunk.code[offset + 1] >= chunk.constants.len() {
        Operand::Dangling { index: chunk.code[offset + 1] }
    } else {
        Operand::Constant {
            index: chunk.code[offset + 1],
            value: chunk.constants[chunk.code[offset + 1] as int],
        }
    }
}

/// The instruction that starts at `offset`.
pub open spec fn instruction_at(chunk: ChunkView, offset: int) -> Instruction {
    Instruction {
        offset: offset as usize,
        line: line_mark(chunk, offset),
        byte: chunk.code[offset],
        opcode: decode(chunk.code[offset]),
        operand: operand_at(chunk, offset),
    }
}

/// Where the instruction after the one at `offset` starts: one byte on, or
/// two where the instruction has an operand byte.
pub open spec fn next_offset(chunk: ChunkView, offset: int) -> int {
    if operand_at(chunk, offset) is Absent || operand_at(chunk, offset) is Missing {
        offset + 1
    } else {
        offset + 2
    }
}

/// The instructions of a chunk from `offset` to the end of its code.
pub open spec fn disassembly(chunk: ChunkView, offset: int) -> Seq<Instruction>
    decreases chunk.code.len() - offset,
{
    if 0 <= offset < chunk.code.len() {
        seq![instruction_at(chunk, offset)] + disassembly(chunk, next_offset(chunk, offset))
    } else {
        Seq::empty()
    }
}

/// A disassembly is a function of what the chunk holds: two chunks that
/// hold the same give the same listing, and so does one chunk asked twice.
pub proof fn lemma_disassembly_repeats(first: ChunkView, second: ChunkView)
    requires
        first.code == second.code,
        first.constants == second.constants,
        first.lines == second.lines,
    ensures
        disassembly(first, 0) == disassembly(second, 0),
{
    assert(first == second);
}

/// The line to show for the instruction at `offset`.
fn line_number(chunk: &Chunk, offset: usize) -> (line: Option<usize>)
    requires
        chunk.wf(),
        offset < chunk@.code.len(),
    ensures
        line == line_mark(chunk@, offset as int),
{
    if offset > 0 && chunk.line_at(offset) == chunk.line_at(offset - 1) {
        None
    } else {
        Some(chunk.line_at(offset))
    }
}

/// The operand of the `Constant` instruction at `offset`.
fn constant_instruction(chunk: &Chunk, offset: usize) -> (operand: Operand)
    requires
        chunk.wf(),
        offset < chunk@.code.len(),
        decode(chunk@.code[offset as int]) == OpCode::Constant,
    ensures
        operand == operand_at(chunk@, offset as int),
{
    let count = chunk.count();
    if offset + 1 >= count {
        return Operand::Missing;
    }
    let constant = chunk.byte_at(offset + 1);
    if constant as usize >= chunk.constants_count() {
        return Operand::Dangling { index: constant };
    }
    let value = chunk.constant_at(constant as usize);
    Operand::Constant { index: constant, value }
}

/// Decodes the instruction at `offset` and returns it with the offset of
/// the instruction after it.
pub fn disassemble_instruction(chunk: &Chunk, offset: usize) -> (decoded: (Instruction, usize))
    requires
        chunk.wf(),
        offset < chunk@.code.len(),
    ensures
        decoded.0 == instruction_at(chunk@, offset as int),
        decoded.1 == next_offset(chunk@, offset as int),
        offset < decoded.1 <= chunk@.code.len(),
{
    let count = chunk.count();
    let line = line_number(chunk, offset);
    let byte = chunk.byte_at(offset);
    let opcode = OpCode::from(byte);
    match opcode {
        OpCode::Constant => {
            let operand = constant_instruction(chunk, offset);
            let next = match operand {
                Operand::Missing => offset + 1,
                _ => offset + 2,
            };
            (Instruction { offset, line, byte, opcode, operand }, next)
        },
        _ => (Instruction { offset, line, byte, opcode, operand: Operand::Absent }, offset + 1),
    }
}

/// A chunk of bytecode.
pub struct Chunk {
    dyn_array: DynArray<u8>,
    values: Values,
    lines: DynArray<usize>,
}

impl View for Chunk {
    type V = ChunkView;

    closed spec fn view(&self) -> ChunkView {
        ChunkView { code: self.dyn_array@.items, constants: self.values@, lines: self.lines@.items }
    }
}

impl Default for Chunk {
    /// The empty chunk.
    fn default() -> (chunk: Chunk)
        ensures
            chunk@ == ChunkView::empty(),
            chunk.wf(),
    {
        Chunk { dyn_array: DynArray::default(), values: Values::default(), lines: DynArray::default() }
    }
}

impl Chunk {
    /// The three buffers are well formed.
    pub closed spec fn storage_wf(&self) -> bool {
        self.dyn_array.wf() && self.values.wf() && self.lines.wf()
    }

    /// The invariant of the type: every byte of code has its line.
    pub open spec fn wf(&self) -> bool {
        self.storage_wf() && self@.aligned()
    }

    /// Appends one byte of code, an opcode or an operand, together with the
    /// source line that it came from.
    pub fn write(&mut self, byte: u8, line: usize)
        requires
            old(self).wf(),
            old(self)@.code.len() <= usize::MAX / 2,
        ensures
            final(self).wf(),
            final(self)@ == old(self)@.write(byte, line),
    {
        self.dyn_array.write(byte);
        self.lines.write(line);
    }

    /// Releases the three buffers and leaves the chunk empty.
    pub fn free(&mut self)
        ensures
            final(self).wf(),
            final(self)@ == ChunkView::empty(),
    {
        self.dyn_array.free();
        self.values.free();
        self.lines.free();
    }

    /// Appends `value` to the constant pool and returns its index. An
    /// instruction can name only the first 256 constants.
    pub fn add_constant(&mut self, value: Value) -> (index: usize)
        requires
            old(self).wf(),
            old(self)@.constants.len() <= usize::MAX / 2,
        ensures
            final(self).wf(),
            final(self)@ == old(self)@.add_constant(value),
            index == old(self)@.constants.len(),
    {
        self.values.write(value);
        self.values.count() - 1
    }

    /// The number of bytes of code.
    pub fn count(&self) -> (count: usize)
        ensures
            count == self@.code.len(),
    {
        self.dyn_array.count()
    }

    /// The byte of code at `offset`.
    pub fn byte_at(&self, offset: usize) -> (byte: u8)
        requires
            self.wf(),
            offset < self@.code.len(),
        ensures
            byte == self@.code[offset as int],
    {
        *self.dyn_array.get_at(offset)
    }

    /// The source line of the byte of code at `offset`.
    pub fn line_at(&self, offset: usize) -> (line: usize)
        requires
            self.wf(),
            offset < self@.lines.len(),
        ensures
            line == self@.lines[offset as int],
    {
        *self.lines.get_at(offset)
    }

    /// The number of constants in the pool.
    pub fn constants_count(&self) -> (count: usize)
        ensures
            count == self@.constants.len(),
    {
        self.values.count()
    }

    /// The constant at `index`.
    pub fn constant_at(&self, index: usize) -> (value: Value)
        requires
            self.wf(),
            index < self@.constants.len(),
        ensures
            value == self@.constants[index as int],
    {
        self.values.get_at(index)
    }

    /// Lists the instructions of the chunk, from the first byte of its code
    /// to the last, under the heading `name`.
    pub fn disassemble(&self, name: &str) -> (listing: Disassembly)
        requires
            self.wf(),
        ensures
            listing.name@ == name@,
            listing.instructions@ == disassembly(self@, 0),
    {
        let mut listing: Vec<Instruction> = Vec::new();
        let mut offset: usize = 0;
        while offset != self.dyn_array.count()
            invariant
                self.wf(),
                offset <= self@.code.len(),
                listing@ + disassembly(self@, offset as int) == disassembly(self@, 0),
            decreases self@.code.len() - offset,
        {
            let (instruction, next) = disassemble_instruction(self, offset);
            listing.push(instruction);
            assert(listing@ + disassembly(self@, next as int) == (listing@.drop_last() + (
                seq![instruction] + disassembly(self@, next as int))));
            offset = next;
        }
        assert(listing@ + Seq::<Instruction>::empty() == listing@);
        Disassembly { name: String::from_str(name), instructions: listing }
    }
}

} // verus!
