//! Bytecode: a sequence of code bytes over a pool of string constants, the
//! emitter that builds it, its layout in a file, and its listing.

use vstd::prelude::*;
use vstd::utf8::encode_utf8;

verus! {

/// The operations. `PushConst` is followed by the index of a constant, 32
/// bits, least significant byte first.
#[derive(Debug, Clone, Copy, PartialEq, Eq, Structural)]
pub enum Opcode {
    Nop,
    PushConst,
    LogString,
    BeginFunc,
    EndFunc,
    Halt,
}

impl Opcode {
    /// The byte that stands for the operation.
    pub open spec fn byte_spec(self) -> u8 {
        match self {
            Opcode::Nop => 0,
            Opcode::PushConst => 1,
            Opcode::LogString => 3,
            Opcode::BeginFunc => 10,
            Opcode::EndFunc => 11,
            Opcode::Halt => 255,
        }
    }

    /// The operation that a byte stands for, if any.
    pub open spec fn from_byte_spec(byte: u8) -> Option<Opcode> {
        if byte == 0 {
            Some(Opcode::Nop)
        } else if byte == 1 {
            Some(Opcode::PushConst)
        } else if byte == 3 {
            Some(Opcode::LogString)
        } else if byte == 10 {
            Some(Opcode::BeginFunc)
        } else if byte == 11 {
            Some(Opcode::EndFunc)
        } else if byte == 255 {
            Some(Opcode::Halt)
        } else {
            None
        }
    }

    /// The byte that stands for the operation.
    pub fn byte(self) -> (byte: u8)
        ensures
            byte == self.byte_spec(),
    {
        match self {
            Opcode::Nop => 0,
            Opcode::PushConst => 1,
            Opcode::LogString => 3,
            Opcode::BeginFunc => 10,
            Opcode::EndFunc => 11,
            Opcode::Halt => 255,
        }
    }

    /// The operation that a byte stands for, if any.
    pub fn from_byte(byte: u8) -> (op: Option<Opcode>)
        ensures
            op == Opcode::from_byte_spec(byte),
    {
        match byte {
            0 => Some(Opcode::Nop),
            1 => Some(Opcode::PushConst),
            3 => Some(Opcode::LogString),
            10 => Some(Opcode::BeginFunc),
            11 => Some(Opcode::EndFunc),
            255 => Some(Opcode::Halt),
            _ => None,
        }
    }
}

/// The four bytes of a 32-bit number, least significant first.
pub open spec fn le_bytes(value: u32) -> Seq<u8> {
    seq![
        (value % 256) as u8,
        (value / 256 % 256) as u8,
        (value / 65536 % 256) as u8,
        (value / 16777216) as u8,
    ]
}

/// The number that four bytes write, least significant first.
pub open spec fn le_value(b0: u8, b1: u8, b2: u8, b3: u8) -> u32 {
    (b0 + b1 * 256 + b2 * 65536 + b3 * 16777216) as u32
}

/// A length as the file holds it: in 32 bits, so modulo 2^32.
pub open spec fn length_field(len: nat) -> u32 {
    (len % 0x1_0000_0000) as u32
}

/// Code and constants, ready to be written or run.
#[derive(Debug)]
pub struct Bytecode {
    pub code: Vec<u8>,
    pub constants: Vec<String>,
}

/// The texts of a sequence of strings, in order.
pub open spec fn texts(strings: Seq<String>) -> Seq<Seq<char>> {
    Seq::new(strings.len(), |i: int| strings[i]@)
}

/// Builds bytecode: code is appended byte by byte, constants one by one.
pub struct BytecodeEmitter {
    code: Vec<u8>,
    constants: Vec<String>,
}

impl BytecodeEmitter {
    /// The code emitted so far.
    pub closed spec fn code(&self) -> Seq<u8> {
        self.code@
    }

    /// The constants added so far.
    pub closed spec fn constants(&self) -> Seq<Seq<char>> {
        texts(self.constants@)
    }

    /// An emitter without code or constants.
    pub fn new() -> (emitter: BytecodeEmitter)
        ensures
            emitter.code() == Seq::<u8>::empty(),
            emitter.constants() == Seq::<Seq<char>>::empty(),
    {
        let emitter = BytecodeEmitter { code: Vec::new(), constants: Vec::new() };
        assert(emitter.constants() =~= Seq::empty());
        emitter
    }

    /// Appends the byte of an operation.
    pub fn emit(&mut self, op: Opcode)
        ensures
            final(self).code() == old(self).code().push(op.byte_spec()),
            final(self).constants() == old(self).constants(),
    {
        self.code.push(op.byte());
    }

    /// Appends a 32-bit number, least significant byte first.
    pub fn emit_u32(&mut self, value: u32)
        ensures
            final(self).code() == old(self).code() + le_bytes(value),
            final(self).constants() == old(self).constants(),
    {
        self.code.push((value % 256) as u8);
        self.code.push((value / 256 % 256) as u8);
        self.code.push((value / 65536 % 256) as u8);
        self.code.push((value / 16777216) as u8);
        assert(self.code@ =~= old(self).code@ + le_bytes(value));
    }

    /// Adds a constant and tells its index.
    pub fn add_constant(&mut self, s: String) -> (idx: usize)
        ensures
            idx == old(self).constants().len(),
            final(self).constants() == old(self).constants().push(s@),
            final(self).code() == old(self).code(),
    {
        let idx = self.constants.len();
        self.constants.push(s);
        assert(texts(self.constants@) =~= texts(old(self).constants@).push(s@));
        idx
    }

    /// The bytecode that was built.
    pub fn finish(self) -> (bytecode: Bytecode)
        ensures
            bytecode.code@ == self.code(),
            texts(bytecode.constants@) == self.constants(),
    {
        Bytecode { code: self.code, constants: self.constants }
    }
}

/// One constant in the file: its length in bytes, then its bytes.
pub open spec fn constant_record(text: Seq<char>) -> Seq<u8> {
    le_bytes(length_field(encode_utf8(text).len())) + encode_utf8(text)
}

/// The records of the constants from `from` on, one after the other.
pub open spec fn constant_records(constants: Seq<Seq<char>>, from: int) -> Seq<u8>
    decreases constants.len() - from,
{
    if 0 <= from < constants.len() {
        constant_record(constants[from]) + constant_records(constants, from + 1)
    } else {
        Seq::empty()
    }
}

/// The file of a bytecode: the length of the code, the code, the number of
/// constants, and the record of each constant. Each length is in 32 bits, least
/// significant byte first.
pub open spec fn file_bytes(code: Seq<u8>, constants: Seq<Seq<char>>) -> Seq<u8> {
    le_bytes(length_field(code.len())) + code + le_bytes(length_field(constants.len()))
        + constant_records(constants, 0)
}

/// Appends a length to `out`, in 32 bits.
fn put_length(out: &mut Vec<u8>, len: usize)
    ensures
        final(out)@ == old(out)@ + le_bytes(length_field(len as nat)),
{
    let field: u32 = (len as u64 % 0x1_0000_0000u64) as u32;
    out.push((field % 256) as u8);
    out.push((field / 256 % 256) as u8);
    out.push((field / 65536 % 256) as u8);
    out.push((field / 16777216) as u8);
    assert(out@ =~= old(out)@ + le_bytes(field));
}

/// Appends bytes to `out`.
fn put_bytes(out: &mut Vec<u8>, bytes: &[u8])
    ensures
        final(out)@ == old(out)@ + bytes@,
{
    let mut i: usize = 0;
    while i < bytes.len()
        invariant
            i <= bytes.len(),
            out@ == old(out)@ + bytes@.take(i as int),
        decreases bytes.len() - i,
    {
        out.push(bytes[i]);
        assert(bytes@.take(i + 1) =~= bytes@.take(i as int).push(bytes@[i as int]));
        i += 1;
    }
    assert(bytes@.take(i as int) =~= bytes@);
}

/// The bytes of the file that holds a bytecode.
pub fn serialize(bytecode: &Bytecode) -> (out: Vec<u8>)
    ensures
        out@ == file_bytes(bytecode.code@, texts(bytecode.constants@)),
{
    let ghost constants = texts(bytecode.constants@);
    let mut out: Vec<u8> = Vec::new();
    put_length(&mut out, bytecode.code.len());
    put_bytes(&mut out, bytecode.code.as_slice());
    put_length(&mut out, bytecode.constants.len());
    let ghost head = out@;
    assert(head =~= le_bytes(length_field(bytecode.code@.len())) + bytecode.code@ + le_bytes(
        length_field(constants.len()),
    ));
    let mut i: usize = 0;
    while i < bytecode.constants.len()
        invariant
            i <= bytecode.constants.len(),
            constants == texts(bytecode.constants@),
            out@ + constant_records(constants, i as int) == head + constant_records(constants, 0),
        decreases bytecode.constants.len() - i,
    {
        let ghost before = out@;
        let bytes = bytecode.constants[i].as_str().as_bytes();
        put_length(&mut out, bytes.len());
        put_bytes(&mut out, bytes);
        proof {
            assert(out@ =~= before + constant_record(constants[i as int]));
            assert(out@ + constant_records(constants, i + 1) =~= before + constant_records(
                constants,
                i as int,
            ));
        }
        i += 1;
    }
    assert(out@ + Seq::<u8>::empty() =~= out@);
    out
}

/// What stands at one place of the code.
#[derive(Debug, Clone, Copy, PartialEq, Eq, Structural)]
pub enum Listed {
    /// An operation without operand.
    Plain(Opcode),
    /// `PushConst` with the index that follows it.
    PushConst(u32),
    /// `PushConst` with fewer than four bytes after it.
    IncompletePushConst,
    /// A byte that stands for no operation.
    Unknown(u8),
}

/// One line of a listing: a place in the code and what stands there.
#[derive(Debug, Clone, Copy, PartialEq, Eq, Structural)]
pub struct ListingLine {
    pub offset: usize,
    pub listed: Listed,
}

/// What stands in `code` at `at`, for `0 <= at < code.len()`.
pub open spec fn listed_at(code: Seq<u8>, at: int) -> Listed {
    match Opcode::from_byte_spec(code[at]) {
        Some(Opcode::PushConst) => if at + 4 < code.len() {
            Listed::PushConst(le_value(code[at + 1], code[at + 2], code[at + 3], code[at + 4]))
        } else {
            Listed::IncompletePushConst
        },
        Some(op) => Listed::Plain(op),
        None => Listed::Unknown(code[at]),
    }
}

/// The place of the line after the one at `at`: an index that was read is
/// passed over, an incomplete one is not.
pub open spec fn next_offset(code: Seq<u8>, at: int) -> int {
    if listed_at(code, at) is PushConst {
        at + 5
    } else {
        at + 1
    }
}

/// The lines of the code from `at` on.
pub open spec fn listing_from(code: Seq<u8>, at: int) -> Seq<ListingLine>
    decreases code.len() - at,
{
    if 0 <= at < code.len() {
        seq![ListingLine { offset: at as usize, listed: listed_at(code, at) }] + listing_from(
            code,
            next_offset(code, at),
        )
    } else {
        Seq::empty()
    }
}

/// The listing of a code: one line for each operation, in order.
pub fn disassemble(code: &Vec<u8>) -> (lines: Vec<ListingLine>)
    ensures
        lines@ == listing_from(code@, 0),
{
    let mut lines: Vec<ListingLine> = Vec::new();
    let mut i: usize = 0;
    while i < code.len()
        invariant
            lines@ + listing_from(code@, i as int) == listing_from(code@, 0),
        decreases code.len() - i,
    {
        let ghost before = lines@;
        let byte = code[i];
        let listed = match Opcode::from_byte(byte) {
            Some(Opcode::PushConst) => {
                if code.len() - i > 4 {
                    let value: u32 = code[i + 1] as u32 + code[i + 2] as u32 * 256 + code[i
                        + 3] as u32 * 65536 + code[i + 4] as u32 * 16777216;
                    Listed::PushConst(value)
                } else {
                    Listed::IncompletePushConst
                }
            },
            Some(op) => Listed::Plain(op),
            None => Listed::Unknown(byte),
        };
        lines.push(ListingLine { offset: i, listed });
        proof {
            assert(lines@ + listing_from(code@, next_offset(code@, i as int)) =~= before
                + listing_from(code@, i as int));
        }
        match listed {
            Listed::PushConst(_) => {
                i += 5;
            },
            _ => {
                i += 1;
            },
        }
    }
    assert(lines@ + Seq::<ListingLine>::empty() =~= lines@);
    lines
}

} // verus!
