use bytevm::data::{self, CompiledProc, Op, VmError};
use bytevm::vm::{Fault, FloatOp, Halt, Vm};

fn machine(instrs: Vec<Op<usize>>, frame_size: usize) -> Vm {
    Vm::new(vec![CompiledProc {
        name: "main".into(),
        slot_names: vec![],
        instrs,
        frame_size,
    }])
}

fn addr_of(h: Halt) -> usize {
    match h {
        Halt::Returned(addr) => addr,
        other => panic!("the run did not return: {:?}", other),
    }
}

fn fault_of(h: Halt) -> Fault {
    match h {
        Halt::Fault(f) => f,
        other => panic!("the run did not fault: {:?}", other),
    }
}

fn i64_at(vm: &Vm, addr: usize) -> i64 {
    i64::from_ne_bytes(vm.memory()[addr..addr + 8].try_into().unwrap())
}

fn isize_at(vm: &Vm, addr: usize) -> isize {
    isize::from_ne_bytes(vm.memory()[addr..addr + 8].try_into().unwrap())
}

fn usize_at(vm: &Vm, addr: usize) -> usize {
    usize::from_ne_bytes(vm.memory()[addr..addr + 8].try_into().unwrap())
}

/// Runs `a op b` on two i64 literals and returns the address of the result.
fn i64_binary(a: i64, b: i64, op: fn(usize, usize, usize) -> Op<usize>, size: usize) -> (Vm, Result<Halt, VmError>) {
    let mut vm = machine(
        vec![
            Op::AllocateData(0, 8),
            Op::AllocateData(1, 8),
            Op::AllocateData(2, size),
            Op::DataToHeap(0, data::int64(a)),
            Op::DataToHeap(1, data::int64(b)),
            op(2, 0, 1),
            Op::ReturnLocal(2),
        ],
        3,
    );
    let r = vm.run(0);
    (vm, r)
}

fn i64_value(a: i64, b: i64, op: fn(usize, usize, usize) -> Op<usize>) -> i64 {
    let (vm, r) = i64_binary(a, b, op, 8);
    let addr = addr_of(r.unwrap());
    i64_at(&vm, addr)
}

fn i64_truth(a: i64, b: i64, op: fn(usize, usize, usize) -> Op<usize>) -> u8 {
    let (vm, r) = i64_binary(a, b, op, 1);
    let addr = addr_of(r.unwrap());
    vm.memory()[addr]
}

#[test]
fn new_machine_is_empty() {
    let vm = machine(vec![], 0);
    assert!(vm.memory().is_empty());
    assert!(!vm.awaiting_float());
}

#[test]
fn allocation_hands_out_fresh_zeroed_blocks() {
    let mut vm = machine(
        vec![
            Op::AllocateData(0, 8),
            Op::AllocateData(1, 3),
            Op::AllocateData(2, 8),
            Op::ReturnLocal(2),
        ],
        3,
    );
    let addr = addr_of(vm.run(0).unwrap());
    assert_eq!(addr, 11);
    assert_eq!(vm.memory(), &vec![0u8; 19]);
}

#[test]
fn data_written_is_read_back() {
    let mut vm = machine(
        vec![
            Op::AllocateData(0, 16),
            Op::DataToHeap(0, data::int64(-42)),
            Op::ReturnLocal(0),
        ],
        1,
    );
    let addr = addr_of(vm.run(0).unwrap());
    assert_eq!(addr, 0);
    assert_eq!(i64_at(&vm, 0), -42);
    assert_eq!(&vm.memory()[8..16], &[0u8; 8]);
}

#[test]
fn i64_arithmetic_is_exact() {
    assert_eq!(i64_value(3, 7, Op::I64Add), 10);
    assert_eq!(i64_value(3, 7, Op::I64Sub), -4);
    assert_eq!(i64_value(-6, 7, Op::I64Mul), -42);
    assert_eq!(i64_value(-7, 2, Op::I64Div), -3);
    assert_eq!(i64_value(7, -2, Op::I64Div), -3);
    assert_eq!(i64_value(-7, 2, Op::I64Mod), -1);
    assert_eq!(i64_value(7, -2, Op::I64Mod), 1);
}

#[test]
fn i64_comparisons() {
    assert_eq!(i64_truth(3, 3, Op::I64Eq), 1);
    assert_eq!(i64_truth(3, 4, Op::I64Eq), 0);
    assert_eq!(i64_truth(5, 4, Op::I64Gt), 1);
    assert_eq!(i64_truth(4, 5, Op::I64Gt), 0);
    assert_eq!(i64_truth(4, 5, Op::I64Lt), 1);
}

#[test]
fn i64_negation() {
    let mut vm = machine(
        vec![
            Op::AllocateData(0, 8),
            Op::DataToHeap(0, data::int64(9)),
            Op::I64Neg(0, 0),
            Op::ReturnLocal(0),
        ],
        1,
    );
    let addr = addr_of(vm.run(0).unwrap());
    assert_eq!(i64_at(&vm, addr), -9);
}

#[test]
fn offset_arithmetic() {
    let mut vm = machine(
        vec![
            Op::AllocateData(0, 8),
            Op::AllocateData(1, 8),
            Op::AllocateData(2, 8),
            Op::AllocateData(3, 1),
            Op::DataToHeap(0, data::offset(-9)),
            Op::DataToHeap(1, data::offset(4)),
            Op::OffsetDiv(2, 0, 1),
            Op::OffsetNeg(2, 2),
            Op::OffsetLt(3, 0, 1),
            Op::OffsetMul(1, 1, 1),
            Op::ReturnLocal(2),
        ],
        4,
    );
    let addr = addr_of(vm.run(0).unwrap());
    assert_eq!(isize_at(&vm, addr), 2);
    assert_eq!(vm.memory()[24], 1);
    assert_eq!(isize_at(&vm, 8), 16);
}

#[test]
fn pointer_arithmetic() {
    let mut vm = machine(
        vec![
            Op::AllocateData(0, 8),
            Op::AllocateData(1, 8),
            Op::DataToHeap(1, data::offset(8)),
            Op::LocalPtrAdd(2, 0, 1),
            Op::DataToHeap(2, data::int64(77)),
            Op::PtrAdd(0, 0, 1),
            Op::ReturnLocal(2),
        ],
        3,
    );
    let addr = addr_of(vm.run(0).unwrap());
    assert_eq!(addr, 8);
    // slot 2 pointed at slot 1's block, so the offset there became 77; then
    // the address stored at slot 0's block (0) moved by 77.
    assert_eq!(i64_at(&vm, 8), 77);
    assert_eq!(usize_at(&vm, 0), 77);
}

#[test]
fn boolean_operations() {
    let mut vm = machine(
        vec![
            Op::AllocateData(0, 1),
            Op::AllocateData(1, 1),
            Op::AllocateData(2, 1),
            Op::AllocateData(3, 1),
            Op::AllocateData(4, 1),
            Op::DataToHeap(0, data::bool(true)),
            Op::DataToHeap(1, data::bool(false)),
            Op::LAnd(2, 0, 1),
            Op::LOr(3, 0, 1),
            Op::LXor(4, 0, 0),
            Op::LNot(1, 1),
            Op::LEq(0, 0, 1),
            Op::ReturnLocal(2),
        ],
        5,
    );
    let addr = addr_of(vm.run(0).unwrap());
    assert_eq!(addr, 2);
    assert_eq!(vm.memory(), &vec![1u8, 1, 0, 1, 0]);
}

#[test]
fn unknown_procedure_is_refused() {
    let mut vm = machine(vec![Op::ReturnLocal(0)], 1);
    match vm.run(5) {
        Err(VmError::UnknownProcId(5, trace)) => {
            assert_eq!(trace.len(), 1);
            assert_eq!(&*trace[0].0, "main");
            assert_eq!(trace[0].1, 0);
        }
        other => panic!("unexpected: {:?}", other),
    }
    assert!(vm.memory().is_empty());
}

#[test]
fn running_off_the_end_is_an_error() {
    let mut vm = machine(vec![Op::AllocateData(0, 8)], 1);
    match vm.run(0) {
        Err(VmError::InstrPointerOutOfRange(1, trace)) => {
            assert_eq!(trace.len(), 1);
            assert_eq!(trace[0].1, 1);
        }
        other => panic!("unexpected: {:?}", other),
    }
    assert_eq!(vm.memory().len(), 8);
}

#[test]
fn reading_past_memory_is_an_error() {
    let mut vm = machine(vec![Op::I64Add(0, 0, 0)], 1);
    match vm.run(0) {
        Err(VmError::MemoryAccessOutOfRange(0, _)) => {}
        other => panic!("unexpected: {:?}", other),
    }
}

#[test]
fn writing_past_memory_is_an_error() {
    let mut vm = machine(
        vec![Op::AllocateData(0, 4), Op::DataToHeap(0, data::int64(1))],
        1,
    );
    match vm.run(0) {
        Err(VmError::SetMemoryOutOfRange(0, 8, trace)) => {
            assert_eq!(trace[0].1, 1);
        }
        other => panic!("unexpected: {:?}", other),
    }
    assert_eq!(vm.memory(), &vec![0u8; 4]);
    let mut vm = machine(vec![Op::AllocateData(0, 8), Op::AllocateData(1, 8), Op::LocalPtrAdd(1, 0, 0), Op::DataToHeap(0, data::int64(100)), Op::LocalPtrAdd(0, 0, 0), Op::I64Add(0, 0, 0)], 2);
    match vm.run(0) {
        Err(VmError::MemoryAccessOutOfRange(100, _)) => {}
        other => panic!("unexpected: {:?}", other),
    }
}

#[test]
fn pointer_overflow_is_an_error() {
    let mut vm = machine(
        vec![
            Op::AllocateData(0, 8),
            Op::DataToHeap(0, data::offset(1)),
            Op::LocalPtrSub(1, 1, 0),
        ],
        2,
    );
    match vm.run(0) {
        Err(VmError::BinMathOp(trace)) => assert_eq!(trace[0].1, 2),
        other => panic!("unexpected: {:?}", other),
    }
}

#[test]
fn faults() {
    let mut vm = machine(vec![Op::Nop], 0);
    assert!(matches!(fault_of(vm.run(0).unwrap()), Fault::Unimplemented));
    let mut vm = machine(vec![Op::ReturnLocal(3)], 1);
    assert!(matches!(fault_of(vm.run(0).unwrap()), Fault::IndexOutOfBounds));
    let mut vm = Vm::new(vec![]);
    assert!(matches!(fault_of(vm.run(0).unwrap()), Fault::IndexOutOfBounds));
    let (_, r) = i64_binary(1, 0, Op::I64Div, 8);
    assert!(matches!(fault_of(r.unwrap()), Fault::DivisionByZero));
    let (_, r) = i64_binary(1, 0, Op::I64Mod, 8);
    assert!(matches!(fault_of(r.unwrap()), Fault::DivisionByZero));
    let (_, r) = i64_binary(i64::MAX, 1, Op::I64Add, 8);
    assert!(matches!(fault_of(r.unwrap()), Fault::ArithmeticOverflow));
    let (_, r) = i64_binary(i64::MIN, -1, Op::I64Div, 8);
    assert!(matches!(fault_of(r.unwrap()), Fault::ArithmeticOverflow));
    let mut vm = machine(vec![Op::AllocateData(0, usize::MAX)], 1);
    assert!(matches!(fault_of(vm.run(0).unwrap()), Fault::CapacityOverflow));
}

#[test]
fn float_instructions_are_handed_out() {
    let mut vm = machine(
        vec![
            Op::AllocateData(0, 8),
            Op::AllocateData(1, 8),
            Op::DataToHeap(0, data::Data(1.5f64.to_ne_bytes().to_vec())),
            Op::DataToHeap(1, data::Data(2.0f64.to_ne_bytes().to_vec())),
            Op::F64Mul(1, 0, 1),
            Op::ReturnLocal(1),
        ],
        2,
    );
    let req = match vm.run(0).unwrap() {
        Halt::Float(req) => req,
        other => panic!("unexpected: {:?}", other),
    };
    assert!(matches!(req.op, FloatOp::Mul));
    assert_eq!(f64::from_ne_bytes(req.lhs), 1.5);
    assert_eq!(f64::from_ne_bytes(req.rhs.unwrap()), 2.0);
    assert!(vm.awaiting_float());
    let product = 3.0f64.to_ne_bytes();
    let addr = addr_of(vm.complete_float(&product).unwrap());
    assert_eq!(addr, 8);
    assert_eq!(f64::from_ne_bytes(vm.memory()[8..16].try_into().unwrap()), 3.0);
    assert!(!vm.awaiting_float());
}

#[test]
fn pointers_move_back() {
    let mut vm = machine(
        vec![
            Op::AllocateData(0, 8),
            Op::AllocateData(1, 8),
            Op::AllocateData(2, 8),
            Op::DataToHeap(0, data::offset(3)),
            Op::DataToHeap(2, data::offset(10)),
            Op::LocalPtrSub(1, 1, 0),
            Op::PtrSub(2, 2, 0),
            Op::ReturnLocal(1),
        ],
        3,
    );
    let addr = addr_of(vm.run(0).unwrap());
    assert_eq!(addr, 5);
    assert_eq!(usize_at(&vm, 16), 7);
}

#[test]
fn memory_holds_what_was_allocated_before_an_error() {
    let mut vm = machine(
        vec![
            Op::AllocateData(0, 8),
            Op::AllocateData(1, 5),
            Op::DataToHeap(1, data::int64(4)),
            Op::AllocateData(2, 8),
        ],
        3,
    );
    match vm.run(0) {
        Err(VmError::SetMemoryOutOfRange(8, 8, trace)) => {
            assert_eq!(trace.len(), 1);
            assert_eq!(&*trace[0].0, "main");
            assert_eq!(trace[0].1, 2);
        }
        other => panic!("unexpected: {:?}", other),
    }
    assert_eq!(vm.memory().len(), 13);
}
