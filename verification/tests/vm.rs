use bytevm::data::{self, CompiledProc, Op};
use bytevm::vm::{Halt, Vm};

fn returned(h: Halt) -> usize {
    match h {
        Halt::Returned(addr) => addr,
        other => panic!("the run did not return: {:?}", other),
    }
}

#[test]
fn should_handle_single_local_actions() {
    // Note:  Make sure that an item at the beginning and end of memory can be
    // set and retrieved
    const X: usize = data::I64_SIZE;
    let procs = vec![CompiledProc {
        name: "main".into(),
        slot_names: vec![],
        instrs: vec![
            Op::AllocateData(0, X),
            Op::DataToHeap(0, data::int64(3)),
            Op::I64Add(0, 0, 0),
            Op::ReturnLocal(0),
        ],
        frame_size: 3,
    }];
    let mut vm = Vm::new(procs);
    let addr = returned(vm.run(0).unwrap());
    let x: [u8; X] = vm.memory()[addr..addr + X].try_into().unwrap();
    let x = i64::from_ne_bytes(x);
    assert_eq!(x, 6);
}

#[test]
fn should_handle_two_param_math_op() {
    const X: usize = data::I64_SIZE;
    let procs = vec![CompiledProc {
        name: "main".into(),
        slot_names: vec![],
        instrs: vec![
            Op::AllocateData(0, X),
            Op::AllocateData(1, X),
            Op::AllocateData(2, X),
            Op::DataToHeap(0, data::int64(3)),
            Op::DataToHeap(1, data::int64(7)),
            Op::I64Add(2, 0, 1),
            Op::ReturnLocal(2),
        ],
        frame_size: 3,
    }];
    let mut vm = Vm::new(procs);
    let addr = returned(vm.run(0).unwrap());
    let x: [u8; X] = vm.memory()[addr..addr + X].try_into().unwrap();
    let x = i64::from_ne_bytes(x);
    assert_eq!(x, 10);
}
