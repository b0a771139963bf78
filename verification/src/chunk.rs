//! The instruction stream: a byte-encoded sequence of instructions, a
//! parallel source-line table, a constant pool, and a disassembler.

use vstd::prelude::*;

use crate::text::{append_dec, append_dec_pad4, dec_chars, dec_pad4};
use crate::value::{decimal_of, Value, ValueArray};

verus! {

/// The instruction set.  Each opcode is encoded as a single byte, `0` for
/// `Constant` up to `6` for `Return`; `Constant` is followed by one operand
/// byte, an index into the constant pool.
#[derive(Clone, Copy, Debug, PartialEq, Eq, Structural)]
pub enum OpCode {
    Constant,
    Add,
    Subtract,
    Multiply,
    Divide,
    Negate,
    Return,
}

/// The byte that encodes `op`.
pub open spec fn opcode_byte(op: OpCode) -> u8 {
    match op {
        OpCode::Constant => 0,
        OpCode::Add => 1,
        OpCode::Subtract => 2,
        OpCode::Multiply => 3,
        OpCode::Divide => 4,
        OpCode::Negate => 5,
        OpCode::Return => 6,
    }
}

/// The opcode that byte `b` encodes, `None` for a byte outside `0..=6`.
pub open spec fn byte_opcode(b: u8) -> Option<OpCode> {
    if b == 0 {
        Some(OpCode::Constant)
    } else if b == 1 {
        Some(OpCode::Add)
    } else if b == 2 {
        Some(OpCode::Subtract)
    } else if b == 3 {
        Some(OpCode::Multiply)
    } else if b == 4 {
        Some(OpCode::Divide)
    } else if b == 5 {
        Some(OpCode::Negate)
    } else if b == 6 {
        Some(OpCode::Return)
    } else {
        None
    }
}

/// Encoding then decoding an opcode byte gives the opcode back.
pub proof fn lemma_opcode_byte_roundtrip(op: OpCode)
    ensures
        byte_opcode(opcode_byte(op)) == Some(op),
{
}

impl OpCode {
    /// The single byte that encodes this opcode.
    pub fn to_byte(self) -> (b: u8)
        ensures
            b == opcode_byte(self),
    {
        match self {
            OpCode::Constant => 0,
            OpCode::Add => 1,
            OpCode::Subtract => 2,
            OpCode::Multiply => 3,
            OpCode::Divide => 4,
            OpCode::Negate => 5,
            OpCode::Return => 6,
        }
    }

    /// Decodes a byte, total: a byte outside `0..=6` is no opcode.
    pub fn from_byte(b: u8) -> (r: Option<OpCode>)
        ensures
            r == byte_opcode(b),
    {
        match b {
            0 => Some(OpCode::Constant),
            1 => Some(OpCode::Add),
            2 => Some(OpCode::Subtract),
            3 => Some(OpCode::Multiply),
            4 => Some(OpCode::Divide),
            5 => Some(OpCode::Negate),
            6 => Some(OpCode::Return),
            _ => None,
        }
    }
}

/// The mathematical content of a `Chunk`.
pub struct ChunkView {
    pub code: Seq<u8>,
    pub lines: Seq<usize>,
    pub constants: Seq<Value>,
}

impl ChunkView {
    /// The invariant of a chunk: one line-table entry per code byte, and no
    /// more constants than one operand byte can index.
    pub open spec fn wf(self) -> bool {
        &&& self.lines.len() == self.code.len()
        &&& self.constants.len() <= 256
    }
}

/// The source line recorded for code byte `offset`, or 0 when the line table
/// has no entry for it.
pub open spec fn line_at(c: ChunkView, offset: nat) -> usize {
    if offset < c.lines.len() {
        c.lines[offset as int]
    } else {
        0
    }
}

/// The mnemonic of `op`.
pub open spec fn mnemonic(op: OpCode) -> Seq<char> {
    match op {
        OpCode::Constant => "OP_CONSTANT"@,
        OpCode::Add => "OP_ADD"@,
        OpCode::Subtract => "OP_SUBTRACT"@,
        OpCode::Multiply => "OP_MULTIPLY"@,
        OpCode::Divide => "OP_DIVIDE"@,
        OpCode::Negate => "OP_NEGATE"@,
        OpCode::Return => "OP_RETURN"@,
    }
}

/// The first two columns of a disassembled instruction: the byte offset,
/// zero-padded to four digits, then the source line, zero-padded to four
/// digits — or a bar marker when the line repeats that of the byte before.
pub open spec fn disasm_prefix(c: ChunkView, offset: nat) -> Seq<char>
    recommends
        c.wf(),
        offset < c.code.len(),
{
    dec_pad4(offset, true) + " "@ + if offset > 0 && c.lines[offset as int] == c.lines[offset
        - 1] {
        "   | "@
    } else {
        dec_pad4(c.lines[offset as int] as nat, true) + " "@
    }
}

/// The decoded part of a disassembled instruction, newline included.  A
/// `Constant` prints its operand byte right-aligned and the pool value it
/// resolves to; a byte that is no opcode, an operand index outside the pool,
/// and a `Constant` cut off at the end of the stream are printed as such
/// rather than stopping the listing.
pub open spec fn disasm_decoded(c: ChunkView, offset: nat) -> Seq<char>
    recommends
        c.wf(),
        offset < c.code.len(),
{
    let b = c.code[offset as int];
    match byte_opcode(b) {
        Some(op) => match op {
            OpCode::Constant => if offset + 1 < c.code.len() {
                let idx = c.code[offset as int + 1];
                mnemonic(op) + "      "@ + dec_pad4(idx as nat, false) + " '"@ + (if (
                idx as int) < c.constants.len() {
                    decimal_of(c.constants[idx as int].bits)
                } else {
                    "???"@
                }) + "'\n"@
            } else {
                mnemonic(op) + " <truncated>\n"@
            },
            _ => mnemonic(op) + "\n"@,
        },
        None => "Unknown opcode "@ + dec_chars(b as nat) + "\n"@,
    }
}

/// One full line of the disassembly listing.
pub open spec fn disasm_line(c: ChunkView, offset: nat) -> Seq<char>
    recommends
        c.wf(),
        offset < c.code.len(),
{
    disasm_prefix(c, offset) + disasm_decoded(c, offset)
}

/// How many code bytes the instruction at `offset` spans: two for a
/// `Constant` whose operand byte is present, one otherwise.
pub open spec fn instr_len(c: ChunkView, offset: nat) -> nat
    recommends
        offset < c.code.len(),
{
    if byte_opcode(c.code[offset as int]) == Some(OpCode::Constant) && offset + 1 < c.code.len() {
        2
    } else {
        1
    }
}

/// The disassembly listing from `offset` to the end of the stream.
pub open spec fn disasm_from(c: ChunkView, offset: nat) -> Seq<char>
    recommends
        c.wf(),
    decreases c.code.len() - offset,
{
    if offset >= c.code.len() {
        Seq::<char>::empty()
    } else {
        disasm_line(c, offset) + disasm_from(c, offset + instr_len(c, offset))
    }
}

/// The whole labeled listing of a chunk.
pub open spec fn spec_disassemble(c: ChunkView, name: Seq<char>) -> Seq<char>
    recommends
        c.wf(),
{
    "== "@ + name + " ==\n"@ + disasm_from(c, 0)
}

/// Line-run compression: a disassembled instruction whose recorded source
/// line equals that of the code byte just before it shows the four-character
/// bar marker in the line column; the first byte of the stream, and any byte
/// whose line differs from its predecessor's, shows the zero-padded line
/// number itself.
pub proof fn lemma_line_run_compression(c: ChunkView, offset: nat)
    requires
        c.wf(),
        offset < c.code.len(),
    ensures
        (offset > 0 && c.lines[offset as int] == c.lines[offset - 1]) ==> disasm_line(c, offset)
            == dec_pad4(offset, true) + " "@ + "   | "@ + disasm_decoded(c, offset),
        !(offset > 0 && c.lines[offset as int] == c.lines[offset - 1]) ==> disasm_line(c, offset)
            == dec_pad4(offset, true) + " "@ + dec_pad4(c.lines[offset as int] as nat, true)
            + " "@ + disasm_decoded(c, offset),
{
    if offset > 0 && c.lines[offset as int] == c.lines[offset - 1] {
        assert(disasm_line(c, offset) =~= dec_pad4(offset, true) + " "@ + "   | "@
            + disasm_decoded(c, offset));
    } else {
        assert(disasm_line(c, offset) =~= dec_pad4(offset, true) + " "@ + dec_pad4(
            c.lines[offset as int] as nat,
            true,
        ) + " "@ + disasm_decoded(c, offset));
    }
}

/// Round trip of a `Constant` instruction: decoding an encoded `Constant`
/// spans exactly its two bytes and its listing line reports the mnemonic,
/// the operand byte it was written with, and the decimal rendering of the
/// pool value that operand resolves to.
pub proof fn lemma_constant_round_trip(c: ChunkView, offset: nat)
    requires
        c.wf(),
        offset + 1 < c.code.len(),
        c.code[offset as int] == opcode_byte(OpCode::Constant),
        (c.code[offset as int + 1] as int) < c.constants.len(),
    ensures
        instr_len(c, offset) == 2,
        disasm_line(c, offset) == disasm_prefix(c, offset) + mnemonic(OpCode::Constant) + "      "@
            + dec_pad4(c.code[offset as int + 1] as nat, false) + " '"@ + decimal_of(
            c.constants[c.code[offset as int + 1] as int].bits,
        ) + "'\n"@,
{
    assert(disasm_line(c, offset) =~= disasm_prefix(c, offset) + mnemonic(OpCode::Constant)
        + "      "@ + dec_pad4(c.code[offset as int + 1] as nat, false) + " '"@ + decimal_of(
        c.constants[c.code[offset as int + 1] as int].bits,
    ) + "'\n"@);
}

/// A unit of compiled code: the encoded instructions, the source line of
/// every code byte, and the constant pool the instructions index into.
pub struct Chunk {
    code: Vec<u8>,
    constants: ValueArray,
    lines: Vec<usize>,
}

impl View for Chunk {
    type V = ChunkView;

    closed spec fn view(&self) -> ChunkView {
        ChunkView { code: self.code@, lines: self.lines@, constants: self.constants@ }
    }
}

impl Chunk {
    /// An empty chunk.
    pub fn new() -> (r: Self)
        ensures
            r@.code == Seq::<u8>::empty(),
            r@.lines == Seq::<usize>::empty(),
            r@.constants == Seq::<Value>::empty(),
    {
        Self { code: Vec::new(), constants: ValueArray::new(), lines: Vec::new() }
    }

    /// Appends the single-byte encoding of `byte`, recording `line` for it.
    pub fn write_opcode(&mut self, byte: OpCode, line: usize)
        ensures
            final(self)@.code == old(self)@.code.push(opcode_byte(byte)),
            final(self)@.lines == old(self)@.lines.push(line),
            final(self)@.constants == old(self)@.constants,
    {
        let b = byte.to_byte();
        self.code.push(b);
        self.lines.push(line);
    }

    /// Appends a raw operand byte, recording `line` for it.
    pub fn write(&mut self, byte: u8, line: usize)
        ensures
            final(self)@.code == old(self)@.code.push(byte),
            final(self)@.lines == old(self)@.lines.push(line),
            final(self)@.constants == old(self)@.constants,
    {
        self.code.push(byte);
        self.lines.push(line);
    }

    /// Clears code, line table and constant pool.
    pub fn free(&mut self)
        ensures
            final(self)@.code == Seq::<u8>::empty(),
            final(self)@.lines == Seq::<usize>::empty(),
            final(self)@.constants == Seq::<Value>::empty(),
    {
        self.code = Vec::new();
        self.lines = Vec::new();
        self.constants.free();
    }

    /// How many code bytes the chunk holds.
    pub fn code_len(&self) -> (n: usize)
        ensures
            n == self@.code.len(),
    {
        self.code.len()
    }

    /// The code byte at `offset`.
    pub fn code_at(&self, offset: usize) -> (b: u8)
        requires
            offset < self@.code.len(),
        ensures
            b == self@.code[offset as int],
    {
        self.code[offset]
    }

    /// The source line recorded for code byte `offset`, 0 when the line
    /// table has no entry for it.
    pub fn line_of(&self, offset: usize) -> (l: usize)
        ensures
            l == line_at(self@, offset as nat),
    {
        if offset < self.lines.len() {
            self.lines[offset]
        } else {
            0
        }
    }

    /// The constant pool.
    pub fn constants(&self) -> (r: &ValueArray)
        ensures
            r@ == self@.constants,
    {
        &self.constants
    }

    /// Appends `value` to the constant pool and returns its index.  The pool
    /// is indexed by a single operand byte, so it holds at most 256 values:
    /// the insertion beyond that is rejected with `None` and the pool is left
    /// as it was.
    pub fn add_constant(&mut self, value: Value) -> (r: Option<u8>)
        ensures
            old(self)@.constants.len() < 256 ==> r == Some(
                (old(self)@.constants.len() as u8),
            ) && final(self)@.constants == old(self)@.constants.push(value),
            old(self)@.constants.len() >= 256 ==> r == None::<u8> && final(self)@.constants
                == old(self)@.constants,
            final(self)@.code == old(self)@.code,
            final(self)@.lines == old(self)@.lines,
    {
        if self.constants.len() < 256 {
            let index = self.constants.len() as u8;
            self.constants.write(value);
            Some(index)
        } else {
            None
        }
    }

    /// Decodes the one instruction at `offset` and returns its listing line
    /// together with the offset just past the instruction.
    #[verifier::rlimit(60)]
    pub fn disassemble_instruction(&self, offset: usize) -> (r: (String, usize))
        requires
            self@.wf(),
            offset < self@.code.len(),
        ensures
            r.0@ == disasm_line(self@, offset as nat),
            r.1 == offset + instr_len(self@, offset as nat),
            offset < r.1 <= self@.code.len(),
    {
        let code_len = self.code.len();
        let mut out = String::new();
        append_dec_pad4(&mut out, offset as u64, true);
        out.append(" ");
        if offset > 0 && self.lines[offset] == self.lines[offset - 1] {
            out.append("   | ");
        } else {
            append_dec_pad4(&mut out, self.lines[offset] as u64, true);
            out.append(" ");
        }
        assert(out@ =~= disasm_prefix(self@, offset as nat));
        let b = self.code[offset];
        let next: usize;
        match OpCode::from_byte(b) {
            Some(op) => match op {
                OpCode::Return => {
                    out.append("OP_RETURN");
                    out.append("\n");
                    next = offset + 1;
                },
                OpCode::Negate => {
                    out.append("OP_NEGATE");
                    out.append("\n");
                    next = offset + 1;
                },
                OpCode::Add => {
                    out.append("OP_ADD");
                    out.append("\n");
                    next = offset + 1;
                },
                OpCode::Subtract => {
                    out.append("OP_SUBTRACT");
                    out.append("\n");
                    next = offset + 1;
                },
                OpCode::Multiply => {
                    out.append("OP_MULTIPLY");
                    out.append("\n");
                    next = offset + 1;
                },
                OpCode::Divide => {
                    out.append("OP_DIVIDE");
                    out.append("\n");
                    next = offset + 1;
                },
                OpCode::Constant => {
                    if offset + 1 < code_len {
                        let idx = self.code[offset + 1];
                        out.append("OP_CONSTANT");
                        out.append("      ");
                        append_dec_pad4(&mut out, idx as u64, false);
                        out.append(" '");
                        if (idx as usize) < self.constants.len() {
                            let v = self.constants.print_value(idx);
                            out.append(v.as_str());
                        } else {
                            out.append("???");
                        }
                        out.append("'\n");
                        next = offset + 2;
                    } else {
                        out.append("OP_CONSTANT");
                        out.append(" <truncated>\n");
                        next = offset + 1;
                    }
                },
            },
            None => {
                out.append("Unknown opcode ");
                append_dec(&mut out, b as u64);
                out.append("\n");
                next = offset + 1;
            },
        }
        assert(out@ =~= disasm_line(self@, offset as nat));
        (out, next)
    }

    /// The labeled, human-readable listing of every instruction in order.
    pub fn disassemble(&self, name: &str) -> (r: String)
        requires
            self@.wf(),
        ensures
            r@ == spec_disassemble(self@, name@),
    {
        let mut out = String::new();
        out.append("== ");
        out.append(name);
        out.append(" ==\n");
        let mut offset: usize = 0;
        while offset < self.code.len()
            invariant
                self@.wf(),
                offset <= self@.code.len(),
                out@ + disasm_from(self@, offset as nat) == spec_disassemble(self@, name@),
            decreases self@.code.len() - offset,
        {
            let (line, next) = self.disassemble_instruction(offset);
            out.append(line.as_str());
            proof {
                assert(out@ + disasm_from(self@, next as nat) =~= spec_disassemble(
                    self@,
                    name@,
                ));
            }
            offset = next;
        }
        proof {
            assert(out@ =~= spec_disassemble(self@, name@));
        }
        out
    }
}

} // verus!
