use bytevm::byteable::Byteable;
use bytevm::data::{self, VmError};

#[test]
fn i64_bytes_round_trip() {
    for x in [0i64, 1, -1, 3, i64::MIN, i64::MAX, 123_456_789] {
        let b = x.to();
        assert_eq!(b, x.to_ne_bytes());
        assert_eq!(<i64 as Byteable<8>>::from(b), x);
    }
}

#[test]
fn isize_bytes_round_trip() {
    for x in [0isize, -5, isize::MIN, isize::MAX] {
        let b = x.to();
        assert_eq!(b, x.to_ne_bytes());
        assert_eq!(<isize as Byteable<8>>::from(b), x);
    }
}

#[test]
fn usize_bytes_round_trip() {
    for x in [0usize, 8, usize::MAX] {
        let b = x.to();
        assert_eq!(b, x.to_ne_bytes());
        assert_eq!(<usize as Byteable<8>>::from(b), x);
    }
}

#[test]
fn bool_bytes() {
    assert_eq!(true.to(), [1u8]);
    assert_eq!(false.to(), [0u8]);
    assert!(<bool as Byteable<1>>::from([1]));
    assert!(<bool as Byteable<1>>::from([7]));
    assert!(!<bool as Byteable<1>>::from([0]));
}

#[test]
fn literals_hold_their_bytes() {
    assert_eq!(data::int64(3).0, 3i64.to_ne_bytes().to_vec());
    assert_eq!(data::int64(-2).0, (-2i64).to_ne_bytes().to_vec());
    assert_eq!(data::offset(-5).0, (-5isize).to_ne_bytes().to_vec());
    assert_eq!(data::bool(true).0, vec![1u8]);
    assert_eq!(data::bool(false).0, vec![0u8]);
}

#[test]
fn sizes() {
    assert_eq!(data::I64_SIZE, std::mem::size_of::<i64>());
    assert_eq!(data::PTR_SIZE, std::mem::size_of::<usize>());
    assert_eq!(data::OFFSET_SIZE, std::mem::size_of::<isize>());
    assert_eq!(data::BOOL_SIZE, std::mem::size_of::<bool>());
    assert_eq!(data::F64_SIZE, std::mem::size_of::<f64>());
}

#[test]
fn error_messages() {
    let trace = vec![("main".into(), 0usize), ("helper".into(), 12usize)];
    let e = VmError::UnknownProcId(5, trace.clone());
    assert_eq!(
        e.message(),
        "encountered unknown proc id: 5\n    main at index 0\n    helper at index 12\n"
    );
    let e = VmError::SetMemoryOutOfRange(16, 8, vec![("main".into(), 3)]);
    assert_eq!(e.message(), "set memory out of range: 16 of length: 8\n    main at index 3\n");
    let e = VmError::BinMathOp(vec![]);
    assert_eq!(e.message(), "error with binary operator\n");
    let e = VmError::InstrPointerOutOfRange(4, vec![("p".into(), 4)]);
    assert_eq!(e.message(), "encountered instruction pointer past proc length: 4\n    p at index 4\n");
    let e = VmError::MemoryAccessOutOfRange(100, vec![("p".into(), 1)]);
    assert_eq!(e.message(), "memory access out of range: 100\n    p at index 1\n");
}
