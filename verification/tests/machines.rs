use hackerscript::ast::MemoryMode;
use hackerscript::object_vm::{AstNode, Program, Vm, VmError as ObjectError};
use hackerscript::stack_vm::{decode_bytecode, Bytecode, LoadError, VmError, VM};

fn run(code: Vec<u8>, constants: Vec<i32>) -> (Result<Vec<i32>, VmError>, VM) {
    let mut vm = VM::new();
    let (logged, result) = vm.run(&Bytecode { code, constants });
    (result.map(|_| logged), vm)
}

fn program(mode: MemoryMode) -> Program {
    Program { nodes: vec![AstNode::Log("x".to_string())], memory_mode: mode }
}

#[test]
fn the_stack_machine_adds_and_logs() {
    let code = vec![0, 1, 0, 0, 0, 0, 1, 1, 0, 0, 0, 2, 3, 1, 1, 0, 0, 0, 4, 0];
    let (result, vm) = run(code, vec![40, 2]);
    assert_eq!(result, Ok(vec![42]));
    assert_eq!(vm.stack, vec![2]);
    assert_eq!(vm.pc, 19);
}

#[test]
fn the_stack_machine_logs_in_order() {
    let (result, vm) = run(vec![1, 0, 0, 0, 0, 1, 1, 0, 0, 0, 3, 3, 4], vec![-1, 7]);
    assert_eq!(result, Ok(vec![7, -1]));
    assert!(vm.stack.is_empty());
}

#[test]
fn code_without_halt_runs_out_of_bounds() {
    assert_eq!(run(vec![], vec![]).0, Err(VmError::PcOutOfBounds));
    let (result, vm) = run(vec![0, 0], vec![]);
    assert_eq!(result, Err(VmError::PcOutOfBounds));
    assert_eq!(vm.pc, 2);
}

#[test]
fn each_fault_of_the_stack_machine_is_told() {
    let (result, vm) = run(vec![0, 5, 4], vec![]);
    assert_eq!((result, vm.pc), (Err(VmError::UnknownOpcode), 1));
    let (result, vm) = run(vec![1, 0, 0, 0], vec![1]);
    assert_eq!((result, vm.pc), (Err(VmError::IncompleteLoadConst), 1));
    let (result, vm) = run(vec![1, 1, 0, 0, 0, 4], vec![1]);
    assert_eq!((result, vm.pc), (Err(VmError::InvalidConstantIndex), 5));
    let (result, vm) = run(vec![1, 0, 0, 0, 0, 2, 4], vec![1]);
    assert_eq!((result, vm.pc, vm.stack), (Err(VmError::StackUnderflowOnAdd), 6, vec![1]));
    let (result, vm) = run(vec![3], vec![]);
    assert_eq!((result, vm.pc), (Err(VmError::StackUnderflowOnLog), 1));
}

#[test]
fn a_sum_out_of_range_is_a_fault() {
    let load_twice_add = vec![1, 0, 0, 0, 0, 1, 1, 0, 0, 0, 2, 3, 4];
    let (result, vm) = run(load_twice_add.clone(), vec![i32::MAX, 1]);
    assert_eq!(result, Err(VmError::Overflow));
    assert!(vm.stack.is_empty());
    assert_eq!(run(load_twice_add.clone(), vec![i32::MIN, -1]).0, Err(VmError::Overflow));
    assert_eq!(run(load_twice_add.clone(), vec![i32::MAX, 0]).0, Ok(vec![i32::MAX]));
    assert_eq!(run(load_twice_add, vec![i32::MIN, i32::MAX]).0, Ok(vec![-1]));
}

#[test]
fn a_run_goes_on_from_the_machine_as_it_is() {
    let mut vm = VM { stack: vec![5, 6], pc: 2 };
    let result = vm.run(&Bytecode { code: vec![9, 9, 2, 3, 4], constants: vec![] });
    assert_eq!(result, (vec![11], Ok(())));
    assert_eq!(vm.pc, 5);
}

#[test]
fn a_bytecode_file_is_code_then_constants() {
    let file = vec![3, 0, 0, 0, 1, 2, 3, 2, 0, 0, 0, 0xff, 0xff, 0xff, 0xff, 0, 1, 0, 0, 99];
    assert_eq!(decode_bytecode(&file), Ok(Bytecode { code: vec![1, 2, 3], constants: vec![-1, 256] }));
    assert_eq!(
        decode_bytecode(&[0, 0, 0, 0, 1, 0, 0, 0, 0, 0, 0, 0x80]),
        Ok(Bytecode { code: vec![], constants: vec![i32::MIN] })
    );
    assert_eq!(decode_bytecode(&[0, 0, 0, 0, 0, 0, 0, 0]), Ok(Bytecode { code: vec![], constants: vec![] }));
}

#[test]
fn a_bytecode_file_that_is_cut_off_is_refused() {
    assert_eq!(decode_bytecode(&[]), Err(LoadError::TooShort));
    assert_eq!(decode_bytecode(&[0, 0, 0, 0, 0, 0, 0]), Err(LoadError::TooShort));
    assert_eq!(decode_bytecode(&[1, 0, 0, 0, 0, 0, 0, 0]), Err(LoadError::IncompleteBytecode));
    assert_eq!(decode_bytecode(&[0xff, 0xff, 0xff, 0xff, 0, 0, 0, 0]), Err(LoadError::IncompleteBytecode));
    assert_eq!(decode_bytecode(&[0, 0, 0, 0, 1, 0, 0, 0, 1, 2, 3]), Err(LoadError::IncompleteConstants));
    assert_eq!(decode_bytecode(&[0, 0, 0, 0, 0xff, 0xff, 0xff, 0xff]), Err(LoadError::IncompleteConstants));
}

#[test]
fn the_object_machine_logs_its_messages() {
    let mut vm = Vm::new(program(MemoryMode::Manual), vec![1, 0, 0, 0, 2, b'h', b'i', 1, 0, 0, 0, 0, 1, 0, 0, 0, 1, 0xff]);
    assert_eq!(vm.pc, 0);
    assert_eq!(vm.memory.len(), 1024 * 1024);
    assert!(vm.memory.iter().all(|b| *b == 0));
    assert_eq!(vm.run(), (vec![vec![b'h', b'i'], vec![], vec![0xff]], Ok(())));
    assert_eq!(vm.pc, 18);
    assert_eq!(vm.run(), (vec![], Ok(())));
}

#[test]
fn the_object_machine_refuses_automatic_memory() {
    let mut vm = Vm::new(program(MemoryMode::Auto), vec![1, 0, 0, 0, 1, b'a']);
    assert_eq!(vm.run(), (vec![], Err(ObjectError::UnsupportedMemoryMode)));
    assert_eq!(vm.pc, 0);
}

#[test]
fn each_fault_of_the_object_machine_is_told() {
    let mut vm = Vm::new(program(MemoryMode::Manual), vec![1, 0, 0, 0, 1, b'a', 2, 1]);
    assert_eq!(vm.run(), (vec![vec![b'a']], Err(ObjectError::UnknownOpcode(2))));
    assert_eq!(vm.pc, 7);
    let mut vm = Vm::new(program(MemoryMode::Manual), vec![1, 0, 0, 1]);
    assert_eq!(vm.run(), (vec![], Err(ObjectError::Byteorder)));
    assert_eq!(vm.pc, 1);
    let mut vm = Vm::new(program(MemoryMode::Manual), vec![1, 0, 0, 0, 3, b'a', b'b']);
    assert_eq!(vm.run(), (vec![], Err(ObjectError::ExecutionError)));
    assert_eq!(vm.pc, 5);
}

#[test]
fn lengths_are_read_most_significant_byte_first() {
    let mut vm = Vm::new(program(MemoryMode::Manual), vec![0x12, 0x34, 0x56, 0x78, 0xff, 0xff, 0xff, 0xff, 1]);
    assert_eq!(vm.read_u32(), Ok(0x12345678));
    assert_eq!(vm.pc, 4);
    assert_eq!(vm.read_u32(), Ok(u32::MAX));
    assert_eq!(vm.read_u32(), Err(ObjectError::Byteorder));
    assert_eq!(vm.pc, 8);
}

#[test]
fn memory_is_always_handed_out_at_zero() {
    let mut vm = Vm::new(program(MemoryMode::Manual), vec![]);
    assert_eq!(vm.allocate(16), 0);
    assert_eq!(vm.allocate(usize::MAX), 0);
    vm.deallocate(0);
    vm.deallocate(77);
    assert_eq!(vm.pc, 0);
    assert_eq!(vm.memory.len(), 1024 * 1024);
}

#[test]
fn what_was_logged_before_a_fault_is_kept() {
    let mut vm = VM::new();
    let code = vec![1, 0, 0, 0, 0, 3, 1, 0, 0, 0, 0, 3, 9];
    assert_eq!(vm.run(&Bytecode { code, constants: vec![8] }), (vec![8, 8], Err(VmError::UnknownOpcode)));
    assert_eq!(vm.pc, 12);
}

#[test]
fn a_counter_past_the_code_runs_nothing() {
    let mut vm = Vm::new(program(MemoryMode::Manual), vec![1, 0, 0, 0, 1, b'a']);
    vm.pc = 9;
    assert_eq!(vm.run(), (vec![], Ok(())));
    assert_eq!(vm.pc, 9);
    assert_eq!(vm.read_u32(), Err(ObjectError::Byteorder));
    assert_eq!(vm.pc, 9);
    vm.pc = 6;
    assert_eq!(vm.run(), (vec![], Ok(())));
    assert_eq!(vm.read_u32(), Err(ObjectError::Byteorder));
}
