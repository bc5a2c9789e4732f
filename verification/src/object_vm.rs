//! A machine for object files: a program header, then code that logs messages.

use vstd::prelude::*;
use crate::ast::MemoryMode;

verus! {

/// The statements that an object file records.
#[derive(Debug, PartialEq, Eq)]
pub enum AstNode {
    Log(String),
    Func(String, Vec<AstNode>),
    Class(String, Vec<AstNode>),
    Import(String),
    Block(Vec<AstNode>),
    Comment(String),
}

/// The program that an object file records, with its memory mode.
#[derive(Debug, PartialEq, Eq)]
pub struct Program {
    pub nodes: Vec<AstNode>,
    pub memory_mode: MemoryMode,
}

/// Why a run stopped.
#[derive(Debug, Clone, Copy, PartialEq, Eq, Structural)]
pub enum VmError {
    /// Fewer than four bytes where a length stands.
    Byteorder,
    /// A byte that stands for no operation.
    UnknownOpcode(u8),
    /// A message that goes on past the end of the code.
    ExecutionError,
    /// The program asks for automatic memory management.
    UnsupportedMemoryMode,
}

/// The size of the machine's memory, in bytes.
pub const MEMORY_SIZE: usize = 1048576;

/// The operation that logs a message: its byte is followed by the length of
/// the message, 32 bits, most significant byte first, and by the message.
pub const LOG: u8 = 1;

/// The number that four bytes write, most significant first.
pub open spec fn be_value(b0: u8, b1: u8, b2: u8, b3: u8) -> u32 {
    (b0 * 16777216 + b1 * 65536 + b2 * 256 + b3) as u32
}

/// The length that stands in `code` at `pc`, and the place after it; or the
/// fault.
pub open spec fn read_u32_spec(code: Seq<u8>, pc: int) -> Result<(u32, int), VmError> {
    if pc + 4 > code.len() {
        Err(VmError::Byteorder)
    } else {
        Ok((be_value(code[pc], code[pc + 1], code[pc + 2], code[pc + 3]), pc + 4))
    }
}

/// The run from `pc` on: the messages logged, the place where the run ended,
/// and the fault if there was one. Messages logged before a fault stay logged.
pub open spec fn run_from(code: Seq<u8>, pc: int) -> (Seq<Seq<u8>>, int, Option<VmError>)
    decreases code.len() - pc,
{
    if pc < 0 || pc >= code.len() {
        (Seq::empty(), pc, None)
    } else if code[pc] != LOG {
        (Seq::empty(), pc + 1, Some(VmError::UnknownOpcode(code[pc])))
    } else {
        match read_u32_spec(code, pc + 1) {
            Err(fault) => (Seq::empty(), pc + 1, Some(fault)),
            Ok((len, start)) => if start + len > code.len() {
                (Seq::empty(), start, Some(VmError::ExecutionError))
            } else {
                let (rest, end, fault) = run_from(code, start + len);
                (seq![code.subrange(start, start + len)] + rest, end, fault)
            },
        }
    }
}

/// The machine.
pub struct Vm {
    pub program: Program,
    pub bytecode: Vec<u8>,
    pub pc: usize,
    pub memory: Vec<u8>,
}

/// The messages of a sequence of byte vectors, in order.
pub open spec fn messages(logged: Seq<Vec<u8>>) -> Seq<Seq<u8>> {
    Seq::new(logged.len(), |i: int| logged[i]@)
}

impl Vm {
    /// A machine at the start of `bytecode`, with its memory zeroed.
    pub fn new(program: Program, bytecode: Vec<u8>) -> (vm: Vm)
        ensures
            vm.program == program,
            vm.bytecode == bytecode,
            vm.pc == 0,
            vm.memory@ == Seq::new(MEMORY_SIZE as nat, |i: int| 0u8),
    {
        let mut memory: Vec<u8> = Vec::new();
        let mut i: usize = 0;
        while i < MEMORY_SIZE
            invariant
                i <= MEMORY_SIZE,
                memory@ == Seq::new(i as nat, |i: int| 0u8),
            decreases MEMORY_SIZE - i,
        {
            memory.push(0);
            assert(memory@ =~= Seq::new((i + 1) as nat, |i: int| 0u8));
            i += 1;
        }
        Vm { program, bytecode, pc: 0, memory }
    }

    /// Runs the code from the program counter on and hands back the messages
    /// that it logs, in order, with the fault that stopped the run, if any.
    /// From a counter at or past the end of the code there is nothing to run.
    ///
    /// A program in automatic memory mode is not run at all.
    pub fn run(&mut self) -> (result: (Vec<Vec<u8>>, Result<(), VmError>))
        ensures
            final(self).bytecode == old(self).bytecode,
            final(self).program == old(self).program,
            final(self).memory == old(self).memory,
            old(self).program.memory_mode == MemoryMode::Auto ==> result.0@.len() == 0 && result.1
                == Err::<(), VmError>(VmError::UnsupportedMemoryMode) && final(self).pc == old(
                self,
            ).pc,
            old(self).program.memory_mode != MemoryMode::Auto ==> ({
                let (logged, end, fault) = run_from(old(self).bytecode@, old(self).pc as int);
                &&& messages(result.0@) == logged
                &&& final(self).pc == end
                &&& match result.1 {
                    Ok(_) => fault is None,
                    Err(e) => fault == Some(e),
                }
            }),
    {
        let mut logged: Vec<Vec<u8>> = Vec::new();
        assert(messages(logged@) =~= Seq::empty());
        if self.program.memory_mode == MemoryMode::Auto {
            return (logged, Err(VmError::UnsupportedMemoryMode));
        }
        if self.pc >= self.bytecode.len() {
            return (logged, Ok(()));
        }
        let ghost code = self.bytecode@;
        let ghost whole = run_from(code, self.pc as int);
        proof {
            assert(messages(logged@) + whole.0 =~= whole.0);
        }
        while self.pc < self.bytecode.len()
            invariant
                self.pc <= self.bytecode.len(),
                self.bytecode == old(self).bytecode,
                self.program == old(self).program,
                self.memory == old(self).memory,
                self.program.memory_mode != MemoryMode::Auto,
                code == self.bytecode@,
                whole == run_from(code, old(self).pc as int),
                whole.0 == messages(logged@) + run_from(code, self.pc as int).0,
                whole.1 == run_from(code, self.pc as int).1,
                whole.2 == run_from(code, self.pc as int).2,
            decreases self.bytecode.len() - self.pc,
        {
            let ghost seen = messages(logged@);
            let opcode = self.bytecode[self.pc];
            self.pc += 1;
            if opcode != LOG {
                assert(seen + Seq::<Seq<u8>>::empty() =~= seen);
                return (logged, Err(VmError::UnknownOpcode(opcode)));
            }
            let len = match self.read_u32() {
                Ok(len) => len as usize,
                Err(e) => {
                    assert(seen + Seq::<Seq<u8>>::empty() =~= seen);
                    return (logged, Err(e));
                },
            };
            if self.bytecode.len() - self.pc < len {
                assert(seen + Seq::<Seq<u8>>::empty() =~= seen);
                return (logged, Err(VmError::ExecutionError));
            }
            let mut message: Vec<u8> = Vec::new();
            let start: usize = self.pc;
            let end: usize = start + len;
            while self.pc < end
                invariant
                    start <= self.pc <= end <= self.bytecode.len(),
                    self.bytecode == old(self).bytecode,
                    self.program == old(self).program,
                    self.memory == old(self).memory,
                    message@ == self.bytecode@.subrange(start as int, self.pc as int),
                decreases end - self.pc,
            {
                message.push(self.bytecode[self.pc]);
                self.pc += 1;
            }
            logged.push(message);
            proof {
                let rest = run_from(code, self.pc as int).0;
                assert(messages(logged@) =~= seen.push(message@));
                assert(messages(logged@) + rest =~= seen + (seq![message@] + rest));
            }
        }
        assert(messages(logged@) + Seq::<Seq<u8>>::empty() =~= messages(logged@));
        (logged, Ok(()))
    }

    /// Reads the length under the program counter, 32 bits, most significant
    /// byte first, and moves past it; fails where fewer than four bytes stand
    /// there.
    pub fn read_u32(&mut self) -> (result: Result<u32, VmError>)
        ensures
            final(self).bytecode == old(self).bytecode,
            final(self).program == old(self).program,
            final(self).memory == old(self).memory,
            match result {
                Ok(value) => read_u32_spec(old(self).bytecode@, old(self).pc as int) == Ok::<
                    (u32, int),
                    VmError,
                >((value, final(self).pc as int)),
                Err(e) => read_u32_spec(old(self).bytecode@, old(self).pc as int) == Err::<
                    (u32, int),
                    VmError,
                >(e) && final(self).pc == old(self).pc,
            },
    {
        if self.pc > self.bytecode.len() || self.bytecode.len() - self.pc < 4 {
            return Err(VmError::Byteorder);
        }
        let value: u32 = self.bytecode[self.pc] as u32 * 16777216 + self.bytecode[self.pc
            + 1] as u32 * 65536 + self.bytecode[self.pc + 2] as u32 * 256 + self.bytecode[self.pc
            + 3] as u32;
        self.pc += 4;
        Ok(value)
    }

    /// Hands out memory of the given size: always at address 0.
    pub fn allocate(&mut self, size: usize) -> (addr: usize)
        ensures
            addr == 0,
            *final(self) == *old(self),
    {
        0
    }

    /// Takes memory back: nothing is kept of it.
    pub fn deallocate(&mut self, addr: usize)
        ensures
            *final(self) == *old(self),
    {
    }
}

} // verus!
