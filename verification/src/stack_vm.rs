//! A stack machine for integer bytecode, and the layout of its bytecode in a file.

use vstd::prelude::*;
use crate::bytecode::le_value;

verus! {

/// The operations of the machine, numbered from 0 in this order. `LoadConst`
/// is followed by the index of a constant, 32 bits, least significant byte first.
#[derive(Debug, Clone, Copy, PartialEq, Eq, Structural)]
pub enum Opcode {
    Nop,
    LoadConst,
    Add,
    Log,
    Halt,
}

/// Code over a pool of integer constants.
#[derive(Debug, PartialEq, Eq)]
pub struct Bytecode {
    pub code: Vec<u8>,
    pub constants: Vec<i32>,
}

/// Why a run stopped without halting.
#[derive(Debug, Clone, Copy, PartialEq, Eq, Structural)]
pub enum VmError {
    /// The program counter left the code.
    PcOutOfBounds,
    /// A byte that stands for no operation.
    UnknownOpcode,
    /// Fewer than four bytes after `LoadConst`.
    IncompleteLoadConst,
    /// An index past the last constant.
    InvalidConstantIndex,
    /// `Add` on fewer than two values.
    StackUnderflowOnAdd,
    /// `Log` on no value.
    StackUnderflowOnLog,
    /// A sum that is no 32-bit integer.
    Overflow,
}

/// Why a file holds no bytecode.
#[derive(Debug, Clone, Copy, PartialEq, Eq, Structural)]
pub enum LoadError {
    /// Fewer than eight bytes.
    TooShort,
    /// The code, or the number of constants after it, is cut off.
    IncompleteBytecode,
    /// The constants are cut off.
    IncompleteConstants,
}

/// The operation that a byte stands for, if any.
pub open spec fn decode_spec(byte: u8) -> Option<Opcode> {
    if byte == 0 {
        Some(Opcode::Nop)
    } else if byte == 1 {
        Some(Opcode::LoadConst)
    } else if byte == 2 {
        Some(Opcode::Add)
    } else if byte == 3 {
        Some(Opcode::Log)
    } else if byte == 4 {
        Some(Opcode::Halt)
    } else {
        None
    }
}

/// The machine as a value: its stack, top last; its program counter; and what
/// it has logged.
pub struct Machine {
    pub stack: Seq<i32>,
    pub pc: int,
    pub logged: Seq<i32>,
}

/// What one operation does.
pub enum Step {
    /// The machine goes on.
    Next(Machine),
    /// The machine halts.
    Halted(Machine),
    /// The machine stops with a fault.
    Failed(Machine, VmError),
}

/// One operation of the machine, with its program counter within the code.
///
/// The counter passes the operation before the operation is carried out, and
/// passes the index of a constant before the index is looked up.
pub open spec fn step(code: Seq<u8>, constants: Seq<i32>, m: Machine) -> Step {
    let after = Machine { pc: m.pc + 1, ..m };
    match decode_spec(code[m.pc]) {
        None => Step::Failed(m, VmError::UnknownOpcode),
        Some(Opcode::Nop) => Step::Next(after),
        Some(Opcode::LoadConst) => if after.pc + 4 > code.len() {
            Step::Failed(after, VmError::IncompleteLoadConst)
        } else {
            let index = le_value(
                code[after.pc],
                code[after.pc + 1],
                code[after.pc + 2],
                code[after.pc + 3],
            );
            let loaded = Machine { pc: after.pc + 4, ..m };
            if index >= constants.len() {
                Step::Failed(loaded, VmError::InvalidConstantIndex)
            } else {
                Step::Next(Machine { stack: m.stack.push(constants[index as int]), ..loaded })
            }
        },
        Some(Opcode::Add) => if m.stack.len() < 2 {
            Step::Failed(after, VmError::StackUnderflowOnAdd)
        } else {
            let b = m.stack[m.stack.len() - 1];
            let a = m.stack[m.stack.len() - 2];
            let rest = m.stack.take(m.stack.len() - 2);
            if i32::MIN <= a + b <= i32::MAX {
                Step::Next(Machine { stack: rest.push((a + b) as i32), ..after })
            } else {
                Step::Failed(Machine { stack: rest, ..after }, VmError::Overflow)
            }
        },
        Some(Opcode::Log) => if m.stack.len() < 1 {
            Step::Failed(after, VmError::StackUnderflowOnLog)
        } else {
            Step::Next(
                Machine {
                    stack: m.stack.drop_last(),
                    logged: m.logged.push(m.stack.last()),
                    ..after
                },
            )
        },
        Some(Opcode::Halt) => Step::Halted(after),
    }
}

/// The run of the machine from `m`: the machine at the end, and the fault if
/// it did not halt.
pub open spec fn run_spec(code: Seq<u8>, constants: Seq<i32>, m: Machine) -> (Machine, Option<VmError>)
    decreases code.len() - m.pc,
{
    if m.pc < 0 || m.pc >= code.len() {
        (m, Some(VmError::PcOutOfBounds))
    } else {
        match step(code, constants, m) {
            Step::Next(next) => run_spec(code, constants, next),
            Step::Halted(last) => (last, None),
            Step::Failed(last, fault) => (last, Some(fault)),
        }
    }
}

/// The state of the machine.
pub struct VM {
    pub stack: Vec<i32>,
    pub pc: usize,
}

impl VM {
    /// A machine with an empty stack, at the start of the code.
    pub fn new() -> (vm: VM)
        ensures
            vm.stack@ == Seq::<i32>::empty(),
            vm.pc == 0,
    {
        VM { stack: Vec::new(), pc: 0 }
    }

    /// The machine as a value, with what it has logged.
    pub open spec fn machine(&self, logged: Seq<i32>) -> Machine {
        Machine { stack: self.stack@, pc: self.pc as int, logged }
    }

    /// Runs the code from the program counter on until it halts or fails, and
    /// hands back what was logged, in order, with the fault if there was one.
    pub fn run(&mut self, bytecode: &Bytecode) -> (result: (Vec<i32>, Result<(), VmError>))
        ensures
            ({
                let (last, fault) = run_spec(
                    bytecode.code@,
                    bytecode.constants@,
                    old(self).machine(Seq::empty()),
                );
                &&& final(self).stack@ == last.stack
                &&& final(self).pc == last.pc
                &&& result.0@ == last.logged
                &&& match result.1 {
                    Ok(_) => fault is None,
                    Err(e) => fault == Some(e),
                }
            }),
    {
        let ghost code = bytecode.code@;
        let ghost constants = bytecode.constants@;
        let ghost whole = run_spec(code, constants, self.machine(Seq::empty()));
        let mut logged: Vec<i32> = Vec::new();
        loop
            invariant
                code == bytecode.code@,
                constants == bytecode.constants@,
                whole == run_spec(code, constants, old(self).machine(Seq::empty())),
                whole == run_spec(code, constants, self.machine(logged@)),
            decreases bytecode.code.len() - self.pc,
        {
            if self.pc >= bytecode.code.len() {
                return (logged, Err(VmError::PcOutOfBounds));
            }
            let ghost before = self.machine(logged@);
            let op = match bytecode.code[self.pc] {
                0 => Opcode::Nop,
                1 => Opcode::LoadConst,
                2 => Opcode::Add,
                3 => Opcode::Log,
                4 => Opcode::Halt,
                _ => {
                    return (logged, Err(VmError::UnknownOpcode));
                },
            };
            self.pc += 1;
            match op {
                Opcode::Nop => {},
                Opcode::LoadConst => {
                    if bytecode.code.len() - self.pc < 4 {
                        return (logged, Err(VmError::IncompleteLoadConst));
                    }
                    let index: u32 = bytecode.code[self.pc] as u32 + bytecode.code[self.pc
                        + 1] as u32 * 256 + bytecode.code[self.pc + 2] as u32 * 65536
                        + bytecode.code[self.pc + 3] as u32 * 16777216;
                    self.pc += 4;
                    if index as usize >= bytecode.constants.len() {
                        return (logged, Err(VmError::InvalidConstantIndex));
                    }
                    self.stack.push(bytecode.constants[index as usize]);
                },
                Opcode::Add => {
                    if self.stack.len() < 2 {
                        return (logged, Err(VmError::StackUnderflowOnAdd));
                    }
                    let b = self.stack.pop().unwrap();
                    let a = self.stack.pop().unwrap();
                    assert(self.stack@ =~= before.stack.take(before.stack.len() - 2));
                    match a.checked_add(b) {
                        Some(sum) => {
                            self.stack.push(sum);
                        },
                        None => {
                            return (logged, Err(VmError::Overflow));
                        },
                    }
                },
                Opcode::Log => {
                    if self.stack.len() == 0 {
                        return (logged, Err(VmError::StackUnderflowOnLog));
                    }
                    let value = self.stack.pop().unwrap();
                    logged.push(value);
                },
                Opcode::Halt => {
                    return (logged, Ok(()));
                },
            }
        }
    }
}

/// The integer that four bytes write, least significant first, in two's complement.
pub open spec fn le_signed(b0: u8, b1: u8, b2: u8, b3: u8) -> i32 {
    let unsigned = b0 + b1 * 256 + b2 * 65536 + b3 * 16777216;
    if unsigned >= 0x8000_0000 {
        (unsigned - 0x1_0000_0000) as i32
    } else {
        unsigned as i32
    }
}

/// The number that the four bytes of `bytes` from `at` on write.
pub open spec fn length_at(bytes: Seq<u8>, at: int) -> int {
    le_value(bytes[at], bytes[at + 1], bytes[at + 2], bytes[at + 3]) as int
}

/// The constants of a file: `count` integers of four bytes each, from `start` on.
pub open spec fn constants_at(bytes: Seq<u8>, start: int, count: int) -> Seq<i32> {
    Seq::new(
        count as nat,
        |i: int|
            le_signed(
                bytes[start + 4 * i],
                bytes[start + 4 * i + 1],
                bytes[start + 4 * i + 2],
                bytes[start + 4 * i + 3],
            ),
    )
}

/// The bytecode that a file holds: the length of the code, the code, the
/// number of constants, and the constants; or why the file holds none.
pub open spec fn decode_file(bytes: Seq<u8>) -> Result<(Seq<u8>, Seq<i32>), LoadError> {
    if bytes.len() < 8 {
        Err(LoadError::TooShort)
    } else {
        let code_len = length_at(bytes, 0);
        if bytes.len() < 4 + code_len + 4 {
            Err(LoadError::IncompleteBytecode)
        } else {
            let count = length_at(bytes, 4 + code_len);
            let start = 4 + code_len + 4;
            if bytes.len() < start + count * 4 {
                Err(LoadError::IncompleteConstants)
            } else {
                Ok((bytes.subrange(4, 4 + code_len), constants_at(bytes, start, count)))
            }
        }
    }
}

/// Reads the number that four bytes write, least significant first.
fn read_length(bytes: &[u8], at: usize) -> (value: u32)
    requires
        at + 4 <= bytes.len(),
    ensures
        value == length_at(bytes@, at as int),
{
    bytes[at] as u32 + bytes[at + 1] as u32 * 256 + bytes[at + 2] as u32 * 65536 + bytes[at
        + 3] as u32 * 16777216
}

/// Reads the bytecode that a file holds.
pub fn decode_bytecode(bytes: &[u8]) -> (result: Result<Bytecode, LoadError>)
    ensures
        match result {
            Ok(bytecode) => decode_file(bytes@) == Ok::<(Seq<u8>, Seq<i32>), LoadError>(
                (bytecode.code@, bytecode.constants@),
            ),
            Err(e) => decode_file(bytes@) == Err::<(Seq<u8>, Seq<i32>), LoadError>(e),
        },
{
    if bytes.len() < 8 {
        return Err(LoadError::TooShort);
    }
    let code_len = read_length(bytes, 0) as usize;
    if bytes.len() - 8 < code_len {
        return Err(LoadError::IncompleteBytecode);
    }
    let count_at: usize = 4 + code_len;
    let count = read_length(bytes, count_at) as usize;
    let start: usize = count_at + 4;
    if (bytes.len() - start) / 4 < count {
        return Err(LoadError::IncompleteConstants);
    }
    let mut code: Vec<u8> = Vec::new();
    let mut i: usize = 4;
    while i < count_at
        invariant
            4 <= i <= count_at <= bytes.len(),
            code@ == bytes@.subrange(4, i as int),
        decreases count_at - i,
    {
        code.push(bytes[i]);
        i += 1;
    }
    let mut constants: Vec<i32> = Vec::new();
    let mut k: usize = 0;
    while k < count
        invariant
            k <= count,
            start + count * 4 <= bytes.len(),
            constants@ == constants_at(bytes@, start as int, k as int),
        decreases count - k,
    {
        let at: usize = start + k * 4;
        let unsigned: u32 = read_length(bytes, at);
        let value: i32 = if unsigned >= 0x8000_0000 {
            (unsigned as i64 - 0x1_0000_0000i64) as i32
        } else {
            unsigned as i32
        };
        constants.push(value);
        assert(constants@ =~= constants_at(bytes@, start as int, k + 1));
        k += 1;
    }
    Ok(Bytecode { code, constants })
}

} // verus!
