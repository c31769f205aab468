//! The machine: a flat byte memory, a stack of frames whose slots hold memory
//! addresses, and the compiled procedures it runs.

use std::rc::Rc;
use vstd::prelude::*;
use crate::byteable::Byteable;
use crate::data::{CompiledProc, ErrorKind, Op, StackTrace, VmError};
use crate::laws::lemma_run_from;

verus! {

// ---------------------------------------------------------------------------
// Results handed to the caller
// ---------------------------------------------------------------------------

/// An instruction on which the machine cannot go on: executing it panics
/// (an unfinished instruction, a slot or procedure index out of range, an
/// allocation too large, or integer overflow or division by zero).
#[derive(Debug, Clone, Copy)]
pub enum Fault {
    Unimplemented,
    IndexOutOfBounds,
    CapacityOverflow,
    ArithmeticOverflow,
    DivisionByZero,
}

/// A 64-bit float operation; its operands are handed out as bytes.
#[derive(Debug, Clone, Copy)]
pub enum FloatOp {
    Add,
    Sub,
    Mul,
    Div,
    Exp,
    Neg,
    Eq,
    Gt,
    Lt,
}

/// A float instruction whose operands have been read: the caller computes the
/// result and hands its bytes to `Vm::complete_float`.
#[derive(Debug)]
pub struct FloatRequest {
    pub op: FloatOp,
    pub lhs: [u8; 8],
    pub rhs: Option<[u8; 8]>,
}

/// Why a run stopped without an error.
#[derive(Debug)]
pub enum Halt {
    /// The procedure returned the address held in one of its slots.
    Returned(usize),
    /// A float instruction waits for its result.
    Float(FloatRequest),
    /// The current instruction cannot be executed.
    Fault(Fault),
}

/// An integer operation of the machine.
#[derive(Debug, Clone, Copy)]
pub enum IntOp {
    Add,
    Sub,
    Mul,
    Div,
    Rem,
    Eq,
    Gt,
    Lt,
}

/// A boolean operation of the machine.
#[derive(Debug, Clone, Copy)]
pub enum BoolOp {
    And,
    Or,
    Xor,
    Eq,
}

// ---------------------------------------------------------------------------
// The model
// ---------------------------------------------------------------------------

/// A frame: the procedure it runs, its instruction index and its slots.
pub struct FrameModel {
    pub id: usize,
    pub ip: usize,
    pub locals: Seq<usize>,
}

/// The whole machine.
pub struct VmModel {
    pub memory: Seq<u8>,
    pub frames: Seq<FrameModel>,
    pub current: FrameModel,
    pub procs: Seq<CompiledProc>,
}

/// How a run or a step ends, as a value.
pub enum Outcome {
    Returned(usize),
    Float(FloatOp, Seq<u8>, Option<Seq<u8>>),
    Fault(Fault),
    Error(ErrorKind, Seq<(Rc<str>, usize)>),
}

/// The outcome that a result stands for.
pub open spec fn outcome(r: Result<Halt, VmError>) -> Outcome {
    match r {
        Ok(Halt::Returned(addr)) => Outcome::Returned(addr),
        Ok(Halt::Float(q)) => Outcome::Float(
            q.op,
            q.lhs@,
            match q.rhs {
                Some(b) => Some(b@),
                None => None,
            },
        ),
        Ok(Halt::Fault(f)) => Outcome::Fault(f),
        Err(e) => Outcome::Error(e.kind(), e.trace()),
    }
}

/// Reading or writing memory either gives bytes (the bytes read, or the new
/// memory) or ends the step.
pub enum Access {
    Bytes(Seq<u8>),
    Stop(Outcome),
}

/// One instruction either goes on with a new memory and new slots, or ends the run.
pub enum Step {
    Next(Seq<u8>, Seq<usize>),
    Stop(Outcome),
}

/// `mem` with `bytes` written from `addr` on.
pub open spec fn overwrite(mem: Seq<u8>, addr: int, bytes: Seq<u8>) -> Seq<u8> {
    Seq::new(mem.len(), |i: int| if addr <= i < addr + bytes.len() { bytes[i - addr] } else { mem[i] })
}

/// `n` zero bytes.
pub open spec fn zeros(n: nat) -> Seq<u8> {
    Seq::new(n, |i: int| 0u8)
}

/// `x - y` when it is a `usize`.
pub open spec fn sub_signed(x: usize, y: isize) -> Option<usize> {
    if 0 <= x - y <= usize::MAX {
        Some((x - y) as usize)
    } else {
        None
    }
}

/// The bytes an `i64` operation writes, or the fault it raises.
pub open spec fn i64_result(op: IntOp, x: i64, y: i64) -> Result<Seq<u8>, Fault> {
    let arith = |v: Option<i64>|
        match v {
            Some(v) => Ok(v.encoding()),
            None => Err(Fault::ArithmeticOverflow),
        };
    match op {
        IntOp::Add => arith(x.checked_add(y)),
        IntOp::Sub => arith(x.checked_sub(y)),
        IntOp::Mul => arith(x.checked_mul(y)),
        IntOp::Div => if y == 0 { Err(Fault::DivisionByZero) } else { arith(x.checked_div(y)) },
        IntOp::Rem => if y == 0 { Err(Fault::DivisionByZero) } else { arith(x.checked_rem(y)) },
        IntOp::Eq => Ok((x == y).encoding()),
        IntOp::Gt => Ok((x > y).encoding()),
        IntOp::Lt => Ok((x < y).encoding()),
    }
}

/// The bytes an `isize` operation writes, or the fault it raises.
pub open spec fn isize_result(op: IntOp, x: isize, y: isize) -> Result<Seq<u8>, Fault> {
    let arith = |v: Option<isize>|
        match v {
            Some(v) => Ok(v.encoding()),
            None => Err(Fault::ArithmeticOverflow),
        };
    match op {
        IntOp::Add => arith(x.checked_add(y)),
        IntOp::Sub => arith(x.checked_sub(y)),
        IntOp::Mul => arith(x.checked_mul(y)),
        IntOp::Div => if y == 0 { Err(Fault::DivisionByZero) } else { arith(x.checked_div(y)) },
        IntOp::Rem => if y == 0 { Err(Fault::DivisionByZero) } else { arith(x.checked_rem(y)) },
        IntOp::Eq => Ok((x == y).encoding()),
        IntOp::Gt => Ok((x > y).encoding()),
        IntOp::Lt => Ok((x < y).encoding()),
    }
}

/// The value of a boolean operation.
pub open spec fn bool_result(op: BoolOp, x: bool, y: bool) -> bool {
    match op {
        BoolOp::And => x && y,
        BoolOp::Or => x || y,
        BoolOp::Xor => x != y,
        BoolOp::Eq => x == y,
    }
}

/// The float operation an instruction performs, with its destination slot and
/// operand slots.
pub open spec fn float_instr(op: Op<usize>) -> Option<(FloatOp, usize, usize, Option<usize>)> {
    match op {
        Op::F64Add(d, a, b) => Some((FloatOp::Add, d, a, Some(b))),
        Op::F64Sub(d, a, b) => Some((FloatOp::Sub, d, a, Some(b))),
        Op::F64Mul(d, a, b) => Some((FloatOp::Mul, d, a, Some(b))),
        Op::F64Div(d, a, b) => Some((FloatOp::Div, d, a, Some(b))),
        Op::F64Exp(d, a, b) => Some((FloatOp::Exp, d, a, Some(b))),
        Op::F64Neg(d, a) => Some((FloatOp::Neg, d, a, None)),
        Op::F64Eq(d, a, b) => Some((FloatOp::Eq, d, a, Some(b))),
        Op::F64Gt(d, a, b) => Some((FloatOp::Gt, d, a, Some(b))),
        Op::F64Lt(d, a, b) => Some((FloatOp::Lt, d, a, Some(b))),
        _ => None,
    }
}

/// Number of bytes a float operation's result takes: a float for the
/// arithmetic, a boolean for the comparisons.
pub open spec fn float_result_len(op: FloatOp) -> nat {
    match op {
        FloatOp::Eq | FloatOp::Gt | FloatOp::Lt => 1,
        _ => 8,
    }
}

impl VmModel {
    /// Every frame names a procedure and has moved past its call, and the
    /// current frame names a procedure whenever there is one.
    pub open spec fn wf(self) -> bool {
        &&& (self.procs.len() > 0 ==> self.current.id < self.procs.len())
        &&& forall|i: int|
            0 <= i < self.frames.len() ==> {
                &&& #[trigger] self.frames[i].id < self.procs.len()
                &&& self.frames[i].ip >= 1
            }
    }

    /// The instructions of the current procedure.
    pub open spec fn instrs(self) -> Seq<Op<usize>> {
        self.procs[self.current.id as int].instrs@
    }

    /// The stack trace: each frame's procedure name with the index of the
    /// instruction that called out of it, then the current one.
    pub open spec fn trace(self) -> Seq<(Rc<str>, usize)> {
        Seq::new(
            self.frames.len(),
            |i: int| (self.procs[self.frames[i].id as int].name, (self.frames[i].ip - 1) as usize),
        ).push((self.procs[self.current.id as int].name, self.current.ip))
    }

    /// The error of kind `kind` at the current instruction.
    pub open spec fn error(self, kind: ErrorKind) -> Outcome {
        Outcome::Error(kind, self.trace())
    }

    /// The machine with memory `memory` and current slots `locals`.
    pub open spec fn with(self, memory: Seq<u8>, locals: Seq<usize>) -> VmModel {
        VmModel { memory, current: FrameModel { locals, ..self.current }, ..self }
    }

    /// The machine with memory `memory` and current slots `locals`, moved to
    /// the next instruction.
    pub open spec fn advance(self, memory: Seq<u8>, locals: Seq<usize>) -> VmModel {
        VmModel {
            memory,
            current: FrameModel { locals, ip: (self.current.ip + 1) as usize, ..self.current },
            ..self
        }
    }

    /// Reading `n` bytes at the address held in slot `local`.
    #[verifier::opaque]
    pub open spec fn load(self, local: usize, n: nat) -> Access {
        if local >= self.current.locals.len() {
            Access::Stop(Outcome::Fault(Fault::IndexOutOfBounds))
        } else {
            let addr = self.current.locals[local as int];
            if addr + n > usize::MAX {
                Access::Stop(Outcome::Fault(Fault::ArithmeticOverflow))
            } else if addr + n > self.memory.len() {
                Access::Stop(self.error(ErrorKind::MemoryAccessOutOfRange(addr)))
            } else {
                Access::Bytes(self.memory.subrange(addr as int, addr + n))
            }
        }
    }

    /// Writing `bytes` at the address held in slot `dest`: the new memory.
    #[verifier::opaque]
    pub open spec fn store(self, dest: usize, bytes: Seq<u8>) -> Access {
        if dest >= self.current.locals.len() {
            Access::Stop(Outcome::Fault(Fault::IndexOutOfBounds))
        } else {
            let addr = self.current.locals[dest as int];
            if addr + bytes.len() > usize::MAX {
                Access::Stop(Outcome::Fault(Fault::ArithmeticOverflow))
            } else if addr + bytes.len() > self.memory.len() {
                Access::Stop(self.error(ErrorKind::SetMemoryOutOfRange(addr, bytes.len() as usize)))
            } else {
                Access::Bytes(overwrite(self.memory, addr as int, bytes))
            }
        }
    }

    /// Writing `bytes` at the address held in slot `dest`, as a step.
    pub open spec fn store_step(self, dest: usize, bytes: Seq<u8>) -> Step {
        match self.store(dest, bytes) {
            Access::Bytes(memory) => Step::Next(memory, self.current.locals),
            Access::Stop(o) => Step::Stop(o),
        }
    }

    /// `AllocateData(x, size)`: `size` zero bytes at the end of memory, whose
    /// address goes to slot `x`.
    #[verifier::opaque]
    pub open spec fn allocate_step(self, x: usize, size: usize) -> Step {
        if x >= self.current.locals.len() {
            Step::Stop(Outcome::Fault(Fault::IndexOutOfBounds))
        } else if self.memory.len() + size > isize::MAX {
            Step::Stop(Outcome::Fault(Fault::CapacityOverflow))
        } else {
            Step::Next(
                self.memory + zeros(size as nat),
                self.current.locals.update(x as int, self.memory.len() as usize),
            )
        }
    }

    /// `DataToHeap(x, data)`: the bytes of `data` at the address in slot `x`.
    #[verifier::opaque]
    pub open spec fn data_step(self, x: usize, data: Seq<u8>) -> Step {
        if x >= self.current.locals.len() {
            Step::Stop(Outcome::Fault(Fault::IndexOutOfBounds))
        } else {
            let addr = self.current.locals[x as int];
            if addr > self.memory.len() {
                Step::Stop(self.error(ErrorKind::MemoryAccessOutOfRange(addr)))
            } else if addr + data.len() > usize::MAX {
                Step::Stop(Outcome::Fault(Fault::ArithmeticOverflow))
            } else if addr + data.len() > self.memory.len() {
                Step::Stop(self.error(ErrorKind::SetMemoryOutOfRange(addr, data.len() as usize)))
            } else {
                Step::Next(overwrite(self.memory, addr as int, data), self.current.locals)
            }
        }
    }

    /// `ReturnLocal(x)`: the address in slot `x` is the result of the run.
    #[verifier::opaque]
    pub open spec fn return_step(self, x: usize) -> Step {
        if x >= self.current.locals.len() {
            Step::Stop(Outcome::Fault(Fault::IndexOutOfBounds))
        } else if self.frames.len() > 0 {
            Step::Stop(Outcome::Fault(Fault::Unimplemented))
        } else {
            Step::Stop(Outcome::Returned(self.current.locals[x as int]))
        }
    }

    /// `LocalPtrAdd` / `LocalPtrSub`: slot `dest` gets the address in slot
    /// `ptr` moved by the offset stored at the address in slot `off`.
    #[verifier::opaque]
    pub open spec fn local_ptr_step(self, dest: usize, ptr: usize, off: usize, add: bool) -> Step {
        match self.load(off, 8) {
            Access::Stop(o) => Step::Stop(o),
            Access::Bytes(b) => {
                let y = <isize as Byteable<8>>::decoding(b);
                if ptr >= self.current.locals.len() {
                    Step::Stop(Outcome::Fault(Fault::IndexOutOfBounds))
                } else {
                    let x = self.current.locals[ptr as int];
                    let r = if add { x.checked_add_signed(y) } else { sub_signed(x, y) };
                    match r {
                        None => Step::Stop(self.error(ErrorKind::BinMathOp)),
                        Some(v) => if dest >= self.current.locals.len() {
                            Step::Stop(Outcome::Fault(Fault::IndexOutOfBounds))
                        } else {
                            Step::Next(self.memory, self.current.locals.update(dest as int, v))
                        },
                    }
                }
            },
        }
    }

    /// `PtrAdd` / `PtrSub`: the address stored at slot `a`'s address moved by
    /// the offset stored at slot `b`'s, written at slot `dest`'s address.
    #[verifier::opaque]
    pub open spec fn ptr_step(self, dest: usize, a: usize, b: usize, add: bool) -> Step {
        match self.load(a, 8) {
            Access::Stop(o) => Step::Stop(o),
            Access::Bytes(ba) => match self.load(b, 8) {
                Access::Stop(o) => Step::Stop(o),
                Access::Bytes(bb) => {
                    let x = <usize as Byteable<8>>::decoding(ba);
                    let y = <isize as Byteable<8>>::decoding(bb);
                    let r = if add { x.checked_add_signed(y) } else { sub_signed(x, y) };
                    match r {
                        None => Step::Stop(self.error(ErrorKind::BinMathOp)),
                        Some(v) => self.store_step(dest, v.encoding()),
                    }
                },
            },
        }
    }

    /// A binary `i64` instruction.
    #[verifier::opaque]
    pub open spec fn i64_step(self, dest: usize, a: usize, b: usize, op: IntOp) -> Step {
        match self.load(a, 8) {
            Access::Stop(o) => Step::Stop(o),
            Access::Bytes(ba) => match self.load(b, 8) {
                Access::Stop(o) => Step::Stop(o),
                Access::Bytes(bb) => match i64_result(
                    op,
                    <i64 as Byteable<8>>::decoding(ba),
                    <i64 as Byteable<8>>::decoding(bb),
                ) {
                    Err(f) => Step::Stop(Outcome::Fault(f)),
                    Ok(bytes) => self.store_step(dest, bytes),
                },
            },
        }
    }

    /// A binary `isize` instruction.
    #[verifier::opaque]
    pub open spec fn offset_step(self, dest: usize, a: usize, b: usize, op: IntOp) -> Step {
        match self.load(a, 8) {
            Access::Stop(o) => Step::Stop(o),
            Access::Bytes(ba) => match self.load(b, 8) {
                Access::Stop(o) => Step::Stop(o),
                Access::Bytes(bb) => match isize_result(
                    op,
                    <isize as Byteable<8>>::decoding(ba),
                    <isize as Byteable<8>>::decoding(bb),
                ) {
                    Err(f) => Step::Stop(Outcome::Fault(f)),
                    Ok(bytes) => self.store_step(dest, bytes),
                },
            },
        }
    }

    /// `I64Neg`.
    #[verifier::opaque]
    pub open spec fn i64_neg_step(self, dest: usize, a: usize) -> Step {
        match self.load(a, 8) {
            Access::Stop(o) => Step::Stop(o),
            Access::Bytes(ba) => {
                let x = <i64 as Byteable<8>>::decoding(ba);
                if x == i64::MIN {
                    Step::Stop(Outcome::Fault(Fault::ArithmeticOverflow))
                } else {
                    self.store_step(dest, ((-x) as i64).encoding())
                }
            },
        }
    }

    /// `OffsetNeg`.
    #[verifier::opaque]
    pub open spec fn offset_neg_step(self, dest: usize, a: usize) -> Step {
        match self.load(a, 8) {
            Access::Stop(o) => Step::Stop(o),
            Access::Bytes(ba) => {
                let x = <isize as Byteable<8>>::decoding(ba);
                if x == isize::MIN {
                    Step::Stop(Outcome::Fault(Fault::ArithmeticOverflow))
                } else {
                    self.store_step(dest, ((-x) as isize).encoding())
                }
            },
        }
    }

    /// A binary boolean instruction.
    #[verifier::opaque]
    pub open spec fn bool_step(self, dest: usize, a: usize, b: usize, op: BoolOp) -> Step {
        match self.load(a, 1) {
            Access::Stop(o) => Step::Stop(o),
            Access::Bytes(ba) => match self.load(b, 1) {
                Access::Stop(o) => Step::Stop(o),
                Access::Bytes(bb) => self.store_step(
                    dest,
                    bool_result(
                        op,
                        <bool as Byteable<1>>::decoding(ba),
                        <bool as Byteable<1>>::decoding(bb),
                    ).encoding(),
                ),
            },
        }
    }

    /// `LNot`.
    #[verifier::opaque]
    pub open spec fn not_step(self, dest: usize, a: usize) -> Step {
        match self.load(a, 1) {
            Access::Stop(o) => Step::Stop(o),
            Access::Bytes(ba) => self.store_step(dest, (!<bool as Byteable<1>>::decoding(ba)).encoding()),
        }
    }

    /// A float instruction: its operands are read and handed out.
    #[verifier::opaque]
    pub open spec fn float_step(self, op: FloatOp, a: usize, b: Option<usize>) -> Step {
        match self.load(a, 8) {
            Access::Stop(o) => Step::Stop(o),
            Access::Bytes(ba) => match b {
                None => Step::Stop(Outcome::Float(op, ba, None)),
                Some(b) => match self.load(b, 8) {
                    Access::Stop(o) => Step::Stop(o),
                    Access::Bytes(bb) => Step::Stop(Outcome::Float(op, ba, Some(bb))),
                },
            },
        }
    }

    /// Executing the current instruction.
    #[verifier::opaque]
    pub open spec fn step(self) -> Step {
        let op = self.instrs()[self.current.ip as int];
        match op {
            Op::AllocateData(x, size) => self.allocate_step(x, size),
            Op::DataToHeap(x, data) => self.data_step(x, data@),
            Op::ReturnLocal(x) => self.return_step(x),
            Op::LocalPtrAdd(d, p, o) => self.local_ptr_step(d, p, o, true),
            Op::LocalPtrSub(d, p, o) => self.local_ptr_step(d, p, o, false),
            Op::PtrAdd(d, a, b) => self.ptr_step(d, a, b, true),
            Op::PtrSub(d, a, b) => self.ptr_step(d, a, b, false),
            Op::OffsetAdd(d, a, b) => self.offset_step(d, a, b, IntOp::Add),
            Op::OffsetSub(d, a, b) => self.offset_step(d, a, b, IntOp::Sub),
            Op::OffsetMul(d, a, b) => self.offset_step(d, a, b, IntOp::Mul),
            Op::OffsetDiv(d, a, b) => self.offset_step(d, a, b, IntOp::Div),
            Op::OffsetNeg(d, a) => self.offset_neg_step(d, a),
            Op::OffsetEq(d, a, b) => self.offset_step(d, a, b, IntOp::Eq),
            Op::OffsetGt(d, a, b) => self.offset_step(d, a, b, IntOp::Gt),
            Op::OffsetLt(d, a, b) => self.offset_step(d, a, b, IntOp::Lt),
            Op::F64Add(_, a, b) => self.float_step(FloatOp::Add, a, Some(b)),
            Op::F64Sub(_, a, b) => self.float_step(FloatOp::Sub, a, Some(b)),
            Op::F64Mul(_, a, b) => self.float_step(FloatOp::Mul, a, Some(b)),
            Op::F64Div(_, a, b) => self.float_step(FloatOp::Div, a, Some(b)),
            Op::F64Exp(_, a, b) => self.float_step(FloatOp::Exp, a, Some(b)),
            Op::F64Neg(_, a) => self.float_step(FloatOp::Neg, a, None),
            Op::F64Eq(_, a, b) => self.float_step(FloatOp::Eq, a, Some(b)),
            Op::F64Gt(_, a, b) => self.float_step(FloatOp::Gt, a, Some(b)),
            Op::F64Lt(_, a, b) => self.float_step(FloatOp::Lt, a, Some(b)),
            Op::I64Add(d, a, b) => self.i64_step(d, a, b, IntOp::Add),
            Op::I64Sub(d, a, b) => self.i64_step(d, a, b, IntOp::Sub),
            Op::I64Mul(d, a, b) => self.i64_step(d, a, b, IntOp::Mul),
            Op::I64Div(d, a, b) => self.i64_step(d, a, b, IntOp::Div),
            Op::I64Mod(d, a, b) => self.i64_step(d, a, b, IntOp::Rem),
            Op::I64Neg(d, a) => self.i64_neg_step(d, a),
            Op::I64Eq(d, a, b) => self.i64_step(d, a, b, IntOp::Eq),
            Op::I64Gt(d, a, b) => self.i64_step(d, a, b, IntOp::Gt),
            Op::I64Lt(d, a, b) => self.i64_step(d, a, b, IntOp::Lt),
            Op::LNot(d, a) => self.not_step(d, a),
            Op::LAnd(d, a, b) => self.bool_step(d, a, b, BoolOp::And),
            Op::LOr(d, a, b) => self.bool_step(d, a, b, BoolOp::Or),
            Op::LXor(d, a, b) => self.bool_step(d, a, b, BoolOp::Xor),
            Op::LEq(d, a, b) => self.bool_step(d, a, b, BoolOp::Eq),
            _ => Step::Stop(Outcome::Fault(Fault::Unimplemented)),
        }
    }

    /// Running from the current instruction until the run stops: the machine
    /// then, and how the run ended.
    pub open spec fn run_from(self) -> (VmModel, Outcome)
        decreases self.instrs().len() - self.current.ip when self.current.id < self.procs.len() ==> self.instrs().len() <= usize::MAX
    {
        if self.current.id >= self.procs.len() {
            (self, Outcome::Fault(Fault::IndexOutOfBounds))
        } else if self.current.ip >= self.instrs().len() {
            (self, self.error(ErrorKind::InstrPointerOutOfRange(self.current.ip)))
        } else {
            match self.step() {
                Step::Next(memory, locals) => self.advance(memory, locals).run_from(),
                Step::Stop(o) => (self, o),
            }
        }
    }

    /// Starting procedure `entry` with fresh zeroed slots and running it.
    pub open spec fn run(self, entry: usize) -> (VmModel, Outcome) {
        if entry >= self.procs.len() {
            if self.procs.len() == 0 {
                (self, Outcome::Fault(Fault::IndexOutOfBounds))
            } else {
                (self, self.error(ErrorKind::UnknownProcId(entry)))
            }
        } else {
            let size = self.procs[entry as int].frame_size;
            if size > isize::MAX / 8 {
                (self, Outcome::Fault(Fault::CapacityOverflow))
            } else {
                VmModel {
                    current: FrameModel {
                        id: entry,
                        locals: Seq::new(size as nat, |i: int| 0usize),
                        ..self.current
                    },
                    ..self
                }.run_from()
            }
        }
    }

    /// The current instruction is a float instruction waiting for its result.
    pub open spec fn awaiting_float(self) -> bool {
        &&& self.current.id < self.procs.len()
        &&& self.current.ip < self.instrs().len()
        &&& float_instr(self.instrs()[self.current.ip as int]) is Some
    }

    /// Writing `result` for the waiting float instruction, then running on.
    pub open spec fn complete_float(self, result: Seq<u8>) -> (VmModel, Outcome) {
        let dest = float_instr(self.instrs()[self.current.ip as int])->Some_0.1;
        match self.store(dest, result) {
            Access::Stop(o) => (self, o),
            Access::Bytes(memory) => self.advance(memory, self.current.locals).run_from(),
        }
    }
}

/// A step applied: `r` and the machine afterwards are what `s` says.
pub open spec fn applied(pre: VmModel, post: VmModel, s: Step, r: Option<Result<Halt, VmError>>) -> bool {
    match s {
        Step::Next(memory, locals) => r is None && post == pre.with(memory, locals),
        Step::Stop(o) => (r matches Some(e) && outcome(e) == o) && post == pre,
    }
}

// ---------------------------------------------------------------------------
// The machine
// ---------------------------------------------------------------------------

struct Frame {
    id: usize,
    ip: usize,
    locals: Vec<usize>,
}

impl Frame {
    spec fn model(self) -> FrameModel {
        FrameModel { id: self.id, ip: self.ip, locals: self.locals@ }
    }
}

/// The virtual machine.
pub struct Vm {
    memory: Vec<u8>,
    frames: Vec<Frame>,
    procs: Vec<CompiledProc>,
    current: Frame,
}

impl View for Vm {
    type V = VmModel;

    closed spec fn view(&self) -> VmModel {
        VmModel {
            memory: self.memory@,
            frames: self.frames@.map_values(|f: Frame| f.model()),
            current: self.current.model(),
            procs: self.procs@,
        }
    }
}

/// `Rc::clone`: another handle on the same name.
#[verifier::external_body]
fn clone_name(name: &Rc<str>) -> (out: Rc<str>)
    ensures
        out == *name,
{
    Rc::clone(name)
}

/// `usize::checked_sub_signed`: `x - y` when it is a `usize`, else `None`.
#[verifier::external_body]
fn checked_sub_signed(x: usize, y: isize) -> (out: Option<usize>)
    ensures
        out == sub_signed(x, y),
{
    x.checked_sub_signed(y)
}

/// Writes `bytes` into `memory` from `addr` on.
fn overwrite_bytes(memory: &mut Vec<u8>, addr: usize, bytes: &[u8])
    requires
        addr + bytes@.len() <= old(memory)@.len(),
    ensures
        final(memory)@ == overwrite(old(memory)@, addr as int, bytes@),
{
    let len = memory.len();
    let mut i: usize = 0;
    while i < bytes.len()
        invariant
            len == memory@.len(),
            addr + bytes@.len() <= memory@.len(),
            i <= bytes@.len(),
            memory@.len() == old(memory)@.len(),
            forall|j: int|
                0 <= j < memory@.len() ==> #[trigger] memory@[j] == if addr <= j < addr + i {
                    bytes@[j - addr]
                } else {
                    old(memory)@[j]
                },
        decreases bytes@.len() - i,
    {
        memory.set(addr + i, bytes[i]);
        i = i + 1;
    }
    assert(memory@ =~= overwrite(old(memory)@, addr as int, bytes@));
}

impl Vm {
    /// A machine that will run `procs`, with empty memory and no frames.
    pub fn new(procs: Vec<CompiledProc>) -> (vm: Vm)
        ensures
            vm@.memory == Seq::<u8>::empty(),
            vm@.frames == Seq::<FrameModel>::empty(),
            vm@.current == (FrameModel { id: 0, ip: 0, locals: Seq::empty() }),
            vm@.procs == procs@,
            vm@.wf(),
    {
        let vm = Vm {
            procs,
            current: Frame { id: 0, ip: 0, locals: Vec::new() },
            frames: Vec::new(),
            memory: Vec::new(),
        };
        assert(vm@.frames =~= Seq::<FrameModel>::empty());
        vm
    }

    /// The machine's memory.
    pub fn memory(&self) -> (out: &Vec<u8>)
        ensures
            out@ == self@.memory,
    {
        &self.memory
    }

    fn stack_trace(&self) -> (t: StackTrace)
        requires
            self@.wf(),
            self@.procs.len() > 0,
        ensures
            t@ == self@.trace(),
    {
        let ghost m = self@;
        let mut t: StackTrace = Vec::new();
        let mut i: usize = 0;
        while i < self.frames.len()
            invariant
                m == self@,
                m.wf(),
                i <= self.frames@.len(),
                t@ == m.trace().subrange(0, i as int),
            decreases self.frames@.len() - i,
        {
            let f = &self.frames[i];
            assert(m.frames[i as int] == f.model());
            assert(m.frames[i as int].id < m.procs.len());
            t.push((clone_name(&self.procs[f.id].name), f.ip - 1));
            i = i + 1;
            assert(t@ =~= m.trace().subrange(0, i as int));
        }
        t.push((clone_name(&self.procs[self.current.id].name), self.current.ip));
        assert(t@ =~= m.trace());
        t
    }

    fn fail(&self, kind: ErrorKind) -> (r: Result<Halt, VmError>)
        requires
            self@.wf(),
            self@.procs.len() > 0,
        ensures
            outcome(r) == self@.error(kind),
    {
        Err(VmError::new(kind, self.stack_trace()))
    }
}


impl Vm {
    /// Reads the eight bytes at the address held in slot `local`.
    fn deref8(&self, local: usize) -> (r: Result<[u8; 8], Result<Halt, VmError>>)
        requires
            self@.wf(),
            self@.procs.len() > 0,
        ensures
            match self@.load(local, 8) {
                Access::Bytes(b) => r matches Ok(a) && a@ == b,
                Access::Stop(o) => r matches Err(e) && outcome(e) == o,
            },
    {
        proof {
            reveal(VmModel::load);
        }
        if local >= self.current.locals.len() {
            return Err(Ok(Halt::Fault(Fault::IndexOutOfBounds)));
        }
        let addr = self.current.locals[local];
        match addr.checked_add(8) {
            None => Err(Ok(Halt::Fault(Fault::ArithmeticOverflow))),
            Some(end) => {
                if end > self.memory.len() {
                    Err(self.fail(ErrorKind::MemoryAccessOutOfRange(addr)))
                } else {
                    let m = &self.memory;
                    let a = [
                        m[addr],
                        m[addr + 1],
                        m[addr + 2],
                        m[addr + 3],
                        m[addr + 4],
                        m[addr + 5],
                        m[addr + 6],
                        m[addr + 7],
                    ];
                    assert(a@ =~= self@.memory.subrange(addr as int, addr + 8));
                    Ok(a)
                }
            },
        }
    }

    /// Reads the byte at the address held in slot `local`.
    fn deref1(&self, local: usize) -> (r: Result<[u8; 1], Result<Halt, VmError>>)
        requires
            self@.wf(),
            self@.procs.len() > 0,
        ensures
            match self@.load(local, 1) {
                Access::Bytes(b) => r matches Ok(a) && a@ == b,
                Access::Stop(o) => r matches Err(e) && outcome(e) == o,
            },
    {
        proof {
            reveal(VmModel::load);
        }
        if local >= self.current.locals.len() {
            return Err(Ok(Halt::Fault(Fault::IndexOutOfBounds)));
        }
        let addr = self.current.locals[local];
        match addr.checked_add(1) {
            None => Err(Ok(Halt::Fault(Fault::ArithmeticOverflow))),
            Some(end) => {
                if end > self.memory.len() {
                    Err(self.fail(ErrorKind::MemoryAccessOutOfRange(addr)))
                } else {
                    let a = [self.memory[addr]];
                    assert(a@ =~= self@.memory.subrange(addr as int, addr + 1));
                    Ok(a)
                }
            },
        }
    }

    /// Writes `value` at the address held in slot `dest`.
    fn set_deref(&mut self, dest: usize, value: &[u8]) -> (r: Option<Result<Halt, VmError>>)
        requires
            old(self)@.wf(),
            old(self)@.procs.len() > 0,
        ensures
            applied(old(self)@, final(self)@, old(self)@.store_step(dest, value@), r),
    {
        proof {
            reveal(VmModel::store);
        }
        if dest >= self.current.locals.len() {
            return Some(Ok(Halt::Fault(Fault::IndexOutOfBounds)));
        }
        let addr = self.current.locals[dest];
        match addr.checked_add(value.len()) {
            None => Some(Ok(Halt::Fault(Fault::ArithmeticOverflow))),
            Some(end) => {
                if end > self.memory.len() {
                    Some(self.fail(ErrorKind::SetMemoryOutOfRange(addr, value.len())))
                } else {
                    overwrite_bytes(&mut self.memory, addr, value);
                    assert(self@ == old(self)@.with(
                        overwrite(old(self)@.memory, addr as int, value@),
                        old(self)@.current.locals,
                    ));
                    None
                }
            },
        }
    }
}


impl Vm {
    /// `AllocateData(x, size)`.
    fn allocate(&mut self, x: usize, size: usize) -> (r: Option<Result<Halt, VmError>>)
        requires
            old(self)@.wf(),
            old(self)@.procs.len() > 0,
        ensures
            applied(old(self)@, final(self)@, old(self)@.allocate_step(x, size), r),
    {
        proof {
            reveal(VmModel::allocate_step);
        }
        if x >= self.current.locals.len() {
            return Some(Ok(Halt::Fault(Fault::IndexOutOfBounds)));
        }
        let len = self.memory.len();
        if len > (isize::MAX as usize) || size > (isize::MAX as usize) - len {
            return Some(Ok(Halt::Fault(Fault::CapacityOverflow)));
        }
        let mut i: usize = 0;
        while i < size
            invariant
                i <= size,
                len + size <= isize::MAX,
                self.memory@ == old(self)@.memory + zeros(i as nat),
                self.frames == old(self).frames,
                self.procs == old(self).procs,
                self.current == old(self).current,
            decreases size - i,
        {
            self.memory.push(0);
            i = i + 1;
            assert(self.memory@ =~= old(self)@.memory + zeros(i as nat));
        }
        self.current.locals.set(x, len);
        assert(self@ == old(self)@.with(
            old(self)@.memory + zeros(size as nat),
            old(self)@.current.locals.update(x as int, len),
        ));
        None
    }

    /// `LocalPtrAdd` (when `add`) or `LocalPtrSub`.
    fn local_ptr_math(&mut self, dest: usize, ptr: usize, off: usize, add: bool) -> (r: Option<Result<Halt, VmError>>)
        requires
            old(self)@.wf(),
            old(self)@.procs.len() > 0,
        ensures
            applied(old(self)@, final(self)@, old(self)@.local_ptr_step(dest, ptr, off, add), r),
    {
        proof {
            reveal(VmModel::local_ptr_step);
        }
        let bytes = match self.deref8(off) {
            Ok(b) => b,
            Err(e) => return Some(e),
        };
        let offset = <isize as Byteable<8>>::from(bytes);
        if ptr >= self.current.locals.len() {
            return Some(Ok(Halt::Fault(Fault::IndexOutOfBounds)));
        }
        let base = self.current.locals[ptr];
        let moved = if add { base.checked_add_signed(offset) } else { checked_sub_signed(base, offset) };
        match moved {
            None => Some(self.fail(ErrorKind::BinMathOp)),
            Some(v) => {
                if dest >= self.current.locals.len() {
                    return Some(Ok(Halt::Fault(Fault::IndexOutOfBounds)));
                }
                self.current.locals.set(dest, v);
                assert(self@ == old(self)@.with(
                    old(self)@.memory,
                    old(self)@.current.locals.update(dest as int, v),
                ));
                None
            },
        }
    }

    /// `PtrAdd` (when `add`) or `PtrSub`.
    fn bin_math_ptr(&mut self, dest: usize, a: usize, b: usize, add: bool) -> (r: Option<Result<Halt, VmError>>)
        requires
            old(self)@.wf(),
            old(self)@.procs.len() > 0,
        ensures
            applied(old(self)@, final(self)@, old(self)@.ptr_step(dest, a, b, add), r),
    {
        proof {
            reveal(VmModel::ptr_step);
        }
        let ba = match self.deref8(a) {
            Ok(v) => v,
            Err(e) => return Some(e),
        };
        let bb = match self.deref8(b) {
            Ok(v) => v,
            Err(e) => return Some(e),
        };
        let x = <usize as Byteable<8>>::from(ba);
        let y = <isize as Byteable<8>>::from(bb);
        let moved = if add { x.checked_add_signed(y) } else { checked_sub_signed(x, y) };
        match moved {
            None => Some(self.fail(ErrorKind::BinMathOp)),
            Some(v) => {
                let out = v.to();
                self.set_deref(dest, out.as_slice())
            },
        }
    }

    /// A binary `i64` instruction.
    fn bin_math_i64(&mut self, dest: usize, a: usize, b: usize, op: IntOp) -> (r: Option<Result<Halt, VmError>>)
        requires
            old(self)@.wf(),
            old(self)@.procs.len() > 0,
        ensures
            applied(old(self)@, final(self)@, old(self)@.i64_step(dest, a, b, op), r),
    {
        proof {
            reveal(VmModel::i64_step);
        }
        let ba = match self.deref8(a) {
            Ok(v) => v,
            Err(e) => return Some(e),
        };
        let bb = match self.deref8(b) {
            Ok(v) => v,
            Err(e) => return Some(e),
        };
        let x = <i64 as Byteable<8>>::from(ba);
        let y = <i64 as Byteable<8>>::from(bb);
        let value = match op {
            IntOp::Add => x.checked_add(y),
            IntOp::Sub => x.checked_sub(y),
            IntOp::Mul => x.checked_mul(y),
            IntOp::Div => {
                if y == 0 {
                    return Some(Ok(Halt::Fault(Fault::DivisionByZero)));
                }
                x.checked_div(y)
            },
            IntOp::Rem => {
                if y == 0 {
                    return Some(Ok(Halt::Fault(Fault::DivisionByZero)));
                }
                x.checked_rem(y)
            },
            IntOp::Eq => {
                let out = (x == y).to();
                return self.set_deref(dest, out.as_slice());
            },
            IntOp::Gt => {
                let out = (x > y).to();
                return self.set_deref(dest, out.as_slice());
            },
            IntOp::Lt => {
                let out = (x < y).to();
                return self.set_deref(dest, out.as_slice());
            },
        };
        match value {
            None => Some(Ok(Halt::Fault(Fault::ArithmeticOverflow))),
            Some(v) => {
                let out = v.to();
                self.set_deref(dest, out.as_slice())
            },
        }
    }

    /// A binary `isize` instruction.
    fn bin_math_offset(&mut self, dest: usize, a: usize, b: usize, op: IntOp) -> (r: Option<Result<Halt, VmError>>)
        requires
            old(self)@.wf(),
            old(self)@.procs.len() > 0,
        ensures
            applied(old(self)@, final(self)@, old(self)@.offset_step(dest, a, b, op), r),
    {
        proof {
            reveal(VmModel::offset_step);
        }
        let ba = match self.deref8(a) {
            Ok(v) => v,
            Err(e) => return Some(e),
        };
        let bb = match self.deref8(b) {
            Ok(v) => v,
            Err(e) => return Some(e),
        };
        let x = <isize as Byteable<8>>::from(ba);
        let y = <isize as Byteable<8>>::from(bb);
        let value = match op {
            IntOp::Add => x.checked_add(y),
            IntOp::Sub => x.checked_sub(y),
            IntOp::Mul => x.checked_mul(y),
            IntOp::Div => {
                if y == 0 {
                    return Some(Ok(Halt::Fault(Fault::DivisionByZero)));
                }
                x.checked_div(y)
            },
            IntOp::Rem => {
                if y == 0 {
                    return Some(Ok(Halt::Fault(Fault::DivisionByZero)));
                }
                x.checked_rem(y)
            },
            IntOp::Eq => {
                let out = (x == y).to();
                return self.set_deref(dest, out.as_slice());
            },
            IntOp::Gt => {
                let out = (x > y).to();
                return self.set_deref(dest, out.as_slice());
            },
            IntOp::Lt => {
                let out = (x < y).to();
                return self.set_deref(dest, out.as_slice());
            },
        };
        match value {
            None => Some(Ok(Halt::Fault(Fault::ArithmeticOverflow))),
            Some(v) => {
                let out = v.to();
                self.set_deref(dest, out.as_slice())
            },
        }
    }

    /// `I64Neg`.
    fn uni_math_i64(&mut self, dest: usize, a: usize) -> (r: Option<Result<Halt, VmError>>)
        requires
            old(self)@.wf(),
            old(self)@.procs.len() > 0,
        ensures
            applied(old(self)@, final(self)@, old(self)@.i64_neg_step(dest, a), r),
    {
        proof {
            reveal(VmModel::i64_neg_step);
        }
        let ba = match self.deref8(a) {
            Ok(v) => v,
            Err(e) => return Some(e),
        };
        let x = <i64 as Byteable<8>>::from(ba);
        if x == i64::MIN {
            return Some(Ok(Halt::Fault(Fault::ArithmeticOverflow)));
        }
        let out = (-x).to();
        self.set_deref(dest, out.as_slice())
    }

    /// `OffsetNeg`.
    fn uni_math_offset(&mut self, dest: usize, a: usize) -> (r: Option<Result<Halt, VmError>>)
        requires
            old(self)@.wf(),
            old(self)@.procs.len() > 0,
        ensures
            applied(old(self)@, final(self)@, old(self)@.offset_neg_step(dest, a), r),
    {
        proof {
            reveal(VmModel::offset_neg_step);
        }
        let ba = match self.deref8(a) {
            Ok(v) => v,
            Err(e) => return Some(e),
        };
        let x = <isize as Byteable<8>>::from(ba);
        if x == isize::MIN {
            return Some(Ok(Halt::Fault(Fault::ArithmeticOverflow)));
        }
        let out = (-x).to();
        self.set_deref(dest, out.as_slice())
    }

    /// A binary boolean instruction.
    fn bin_math_bool(&mut self, dest: usize, a: usize, b: usize, op: BoolOp) -> (r: Option<Result<Halt, VmError>>)
        requires
            old(self)@.wf(),
            old(self)@.procs.len() > 0,
        ensures
            applied(old(self)@, final(self)@, old(self)@.bool_step(dest, a, b, op), r),
    {
        proof {
            reveal(VmModel::bool_step);
        }
        let ba = match self.deref1(a) {
            Ok(v) => v,
            Err(e) => return Some(e),
        };
        let bb = match self.deref1(b) {
            Ok(v) => v,
            Err(e) => return Some(e),
        };
        let x = <bool as Byteable<1>>::from(ba);
        let y = <bool as Byteable<1>>::from(bb);
        let value = match op {
            BoolOp::And => x && y,
            BoolOp::Or => x || y,
            BoolOp::Xor => x != y,
            BoolOp::Eq => x == y,
        };
        let out = value.to();
        self.set_deref(dest, out.as_slice())
    }

    /// `LNot`.
    fn uni_math_bool(&mut self, dest: usize, a: usize) -> (r: Option<Result<Halt, VmError>>)
        requires
            old(self)@.wf(),
            old(self)@.procs.len() > 0,
        ensures
            applied(old(self)@, final(self)@, old(self)@.not_step(dest, a), r),
    {
        proof {
            reveal(VmModel::not_step);
        }
        let ba = match self.deref1(a) {
            Ok(v) => v,
            Err(e) => return Some(e),
        };
        let x = <bool as Byteable<1>>::from(ba);
        let out = (!x).to();
        self.set_deref(dest, out.as_slice())
    }

    /// A float instruction: reads its operands and hands them out.
    fn float_request(&self, op: FloatOp, a: usize, b: Option<usize>) -> (r: Result<Halt, VmError>)
        requires
            self@.wf(),
            self@.procs.len() > 0,
        ensures
            self@.float_step(op, a, b) == Step::Stop(outcome(r)),
    {
        proof {
            reveal(VmModel::float_step);
        }
        let lhs = match self.deref8(a) {
            Ok(v) => v,
            Err(e) => return e,
        };
        match b {
            None => Ok(Halt::Float(FloatRequest { op, lhs, rhs: None })),
            Some(b) => {
                let rhs = match self.deref8(b) {
                    Ok(v) => v,
                    Err(e) => return e,
                };
                Ok(Halt::Float(FloatRequest { op, lhs, rhs: Some(rhs) }))
            },
        }
    }
}


impl Vm {
    /// Executes the current instruction, leaving the instruction index as it is.
    fn step(&mut self) -> (r: Option<Result<Halt, VmError>>)
        requires
            old(self)@.wf(),
            old(self)@.current.id < old(self)@.procs.len(),
            old(self)@.current.ip < old(self)@.instrs().len(),
        ensures
            applied(old(self)@, final(self)@, old(self)@.step(), r),
    {
        proof {
            reveal(VmModel::step);
            reveal(VmModel::data_step);
            reveal(VmModel::return_step);
        }
        let id = self.current.id;
        let ip = self.current.ip;
        match &self.procs[id].instrs[ip] {
            Op::AllocateData(x, size) => {
                let (x, size) = (*x, *size);
                self.allocate(x, size)
            },
            Op::DataToHeap(x, data) => {
                let x = *x;
                if x >= self.current.locals.len() {
                    return Some(Ok(Halt::Fault(Fault::IndexOutOfBounds)));
                }
                let addr = self.current.locals[x];
                if addr > self.memory.len() {
                    return Some(self.fail(ErrorKind::MemoryAccessOutOfRange(addr)));
                }
                match addr.checked_add(data.0.len()) {
                    None => Some(Ok(Halt::Fault(Fault::ArithmeticOverflow))),
                    Some(end) => {
                        if end > self.memory.len() {
                            Some(self.fail(ErrorKind::SetMemoryOutOfRange(addr, data.0.len())))
                        } else {
                            overwrite_bytes(&mut self.memory, addr, data.0.as_slice());
                            None
                        }
                    },
                }
            },
            Op::ReturnLocal(x) => {
                let x = *x;
                if x >= self.current.locals.len() {
                    Some(Ok(Halt::Fault(Fault::IndexOutOfBounds)))
                } else if self.frames.len() > 0 {
                    Some(Ok(Halt::Fault(Fault::Unimplemented)))
                } else {
                    Some(Ok(Halt::Returned(self.current.locals[x])))
                }
            },
            Op::LocalPtrAdd(d, p, o) => {
                let (d, p, o) = (*d, *p, *o);
                self.local_ptr_math(d, p, o, true)
            },
            Op::LocalPtrSub(d, p, o) => {
                let (d, p, o) = (*d, *p, *o);
                self.local_ptr_math(d, p, o, false)
            },
            Op::PtrAdd(d, a, b) => {
                let (d, a, b) = (*d, *a, *b);
                self.bin_math_ptr(d, a, b, true)
            },
            Op::PtrSub(d, a, b) => {
                let (d, a, b) = (*d, *a, *b);
                self.bin_math_ptr(d, a, b, false)
            },
            Op::OffsetAdd(d, a, b) => {
                let (d, a, b) = (*d, *a, *b);
                self.bin_math_offset(d, a, b, IntOp::Add)
            },
            Op::OffsetSub(d, a, b) => {
                let (d, a, b) = (*d, *a, *b);
                self.bin_math_offset(d, a, b, IntOp::Sub)
            },
            Op::OffsetMul(d, a, b) => {
                let (d, a, b) = (*d, *a, *b);
                self.bin_math_offset(d, a, b, IntOp::Mul)
            },
            Op::OffsetDiv(d, a, b) => {
                let (d, a, b) = (*d, *a, *b);
                self.bin_math_offset(d, a, b, IntOp::Div)
            },
            Op::OffsetNeg(d, a) => {
                let (d, a) = (*d, *a);
                self.uni_math_offset(d, a)
            },
            Op::OffsetEq(d, a, b) => {
                let (d, a, b) = (*d, *a, *b);
                self.bin_math_offset(d, a, b, IntOp::Eq)
            },
            Op::OffsetGt(d, a, b) => {
                let (d, a, b) = (*d, *a, *b);
                self.bin_math_offset(d, a, b, IntOp::Gt)
            },
            Op::OffsetLt(d, a, b) => {
                let (d, a, b) = (*d, *a, *b);
                self.bin_math_offset(d, a, b, IntOp::Lt)
            },
            Op::F64Add(_, a, b) => Some(self.float_request(FloatOp::Add, *a, Some(*b))),
            Op::F64Sub(_, a, b) => Some(self.float_request(FloatOp::Sub, *a, Some(*b))),
            Op::F64Mul(_, a, b) => Some(self.float_request(FloatOp::Mul, *a, Some(*b))),
            Op::F64Div(_, a, b) => Some(self.float_request(FloatOp::Div, *a, Some(*b))),
            Op::F64Exp(_, a, b) => Some(self.float_request(FloatOp::Exp, *a, Some(*b))),
            Op::F64Neg(_, a) => Some(self.float_request(FloatOp::Neg, *a, None)),
            Op::F64Eq(_, a, b) => Some(self.float_request(FloatOp::Eq, *a, Some(*b))),
            Op::F64Gt(_, a, b) => Some(self.float_request(FloatOp::Gt, *a, Some(*b))),
            Op::F64Lt(_, a, b) => Some(self.float_request(FloatOp::Lt, *a, Some(*b))),
            Op::I64Add(d, a, b) => {
                let (d, a, b) = (*d, *a, *b);
                self.bin_math_i64(d, a, b, IntOp::Add)
            },
            Op::I64Sub(d, a, b) => {
                let (d, a, b) = (*d, *a, *b);
                self.bin_math_i64(d, a, b, IntOp::Sub)
            },
            Op::I64Mul(d, a, b) => {
                let (d, a, b) = (*d, *a, *b);
                self.bin_math_i64(d, a, b, IntOp::Mul)
            },
            Op::I64Div(d, a, b) => {
                let (d, a, b) = (*d, *a, *b);
                self.bin_math_i64(d, a, b, IntOp::Div)
            },
            Op::I64Mod(d, a, b) => {
                let (d, a, b) = (*d, *a, *b);
                self.bin_math_i64(d, a, b, IntOp::Rem)
            },
            Op::I64Neg(d, a) => {
                let (d, a) = (*d, *a);
                self.uni_math_i64(d, a)
            },
            Op::I64Eq(d, a, b) => {
                let (d, a, b) = (*d, *a, *b);
                self.bin_math_i64(d, a, b, IntOp::Eq)
            },
            Op::I64Gt(d, a, b) => {
                let (d, a, b) = (*d, *a, *b);
                self.bin_math_i64(d, a, b, IntOp::Gt)
            },
            Op::I64Lt(d, a, b) => {
                let (d, a, b) = (*d, *a, *b);
                self.bin_math_i64(d, a, b, IntOp::Lt)
            },
            Op::LNot(d, a) => {
                let (d, a) = (*d, *a);
                self.uni_math_bool(d, a)
            },
            Op::LAnd(d, a, b) => {
                let (d, a, b) = (*d, *a, *b);
                self.bin_math_bool(d, a, b, BoolOp::And)
            },
            Op::LOr(d, a, b) => {
                let (d, a, b) = (*d, *a, *b);
                self.bin_math_bool(d, a, b, BoolOp::Or)
            },
            Op::LXor(d, a, b) => {
                let (d, a, b) = (*d, *a, *b);
                self.bin_math_bool(d, a, b, BoolOp::Xor)
            },
            Op::LEq(d, a, b) => {
                let (d, a, b) = (*d, *a, *b);
                self.bin_math_bool(d, a, b, BoolOp::Eq)
            },
            _ => Some(Ok(Halt::Fault(Fault::Unimplemented))),
        }
    }

    /// Runs from the current instruction until the run stops.
    fn execute(&mut self) -> (r: Result<Halt, VmError>)
        requires
            old(self)@.wf(),
        ensures
            final(self)@.wf(),
            (final(self)@, outcome(r)) == old(self)@.run_from(),
            final(self)@.procs == old(self)@.procs,
            outcome(r) is Float ==> final(self)@.awaiting_float(),
    {
        if self.current.id >= self.procs.len() {
            return Ok(Halt::Fault(Fault::IndexOutOfBounds));
        }
        // The length of a vector fits in a `usize`.
        let _len: usize = self.procs[self.current.id].instrs.len();
        proof {
            lemma_run_from(self@);
        }
        let ghost target = self@.run_from();
        loop
            invariant
                self@.wf(),
                self@.current.id < self@.procs.len(),
                self@.run_from() == target,
                target == old(self)@.run_from(),
                target.0.procs == old(self)@.procs,
                target.1 is Float ==> target.0.awaiting_float(),
            decreases self@.instrs().len() - self@.current.ip,
        {
            let len = self.procs[self.current.id].instrs.len();
            let ghost before = self@;
            assert(before.instrs().len() <= usize::MAX);
            if self.current.ip >= len {
                return self.fail(ErrorKind::InstrPointerOutOfRange(self.current.ip));
            }
            match self.step() {
                Some(r) => return r,
                None => {
                    self.current.ip = self.current.ip + 1;
                    proof {
                        match before.step() {
                            Step::Next(memory, locals) => {
                                assert(self@ == before.advance(memory, locals));
                            },
                            Step::Stop(_) => {},
                        }
                    }
                },
            }
        }
    }

    /// Starts procedure `entry` with zeroed slots, keeping the instruction
    /// index and the memory, and runs until the run stops: the procedure
    /// returns, a float instruction waits for its result, an instruction
    /// cannot be executed, or an error comes.
    pub fn run(&mut self, entry: usize) -> (r: Result<Halt, VmError>)
        requires
            old(self)@.wf(),
        ensures
            final(self)@.wf(),
            (final(self)@, outcome(r)) == old(self)@.run(entry),
            final(self)@.procs == old(self)@.procs,
            outcome(r) is Float ==> final(self)@.awaiting_float(),
    {
        if entry >= self.procs.len() {
            if self.procs.len() == 0 {
                return Ok(Halt::Fault(Fault::IndexOutOfBounds));
            }
            return self.fail(ErrorKind::UnknownProcId(entry));
        }
        let size = self.procs[entry].frame_size;
        if size > (isize::MAX as usize) / 8 {
            return Ok(Halt::Fault(Fault::CapacityOverflow));
        }
        let mut locals: Vec<usize> = Vec::new();
        let mut i: usize = 0;
        while i < size
            invariant
                i <= size,
                locals@ == Seq::new(i as nat, |j: int| 0usize),
            decreases size - i,
        {
            locals.push(0);
            i = i + 1;
            assert(locals@ =~= Seq::new(i as nat, |j: int| 0usize));
        }
        self.current.id = entry;
        self.current.locals = locals;
        self.execute()
    }

    /// Whether the current instruction is a float instruction waiting for its
    /// result.
    pub fn awaiting_float(&self) -> (b: bool)
        ensures
            b == self@.awaiting_float(),
    {
        if self.current.id >= self.procs.len() {
            return false;
        }
        let instrs = &self.procs[self.current.id].instrs;
        if self.current.ip >= instrs.len() {
            return false;
        }
        match &instrs[self.current.ip] {
            Op::F64Add(..) | Op::F64Sub(..) | Op::F64Mul(..) | Op::F64Div(..) | Op::F64Exp(..)
            | Op::F64Neg(..) | Op::F64Eq(..) | Op::F64Gt(..) | Op::F64Lt(..) => true,
            _ => false,
        }
    }

    /// Writes `result`, the bytes of the waiting float instruction's result
    /// (eight for a float, one for a comparison), at its destination, and
    /// runs on from the next instruction.
    pub fn complete_float(&mut self, result: &[u8]) -> (r: Result<Halt, VmError>)
        requires
            old(self)@.wf(),
            old(self)@.awaiting_float(),
            result@.len() == float_result_len(
                float_instr(old(self)@.instrs()[old(self)@.current.ip as int])->Some_0.0,
            ),
        ensures
            final(self)@.wf(),
            (final(self)@, outcome(r)) == old(self)@.complete_float(result@),
            final(self)@.procs == old(self)@.procs,
            outcome(r) is Float ==> final(self)@.awaiting_float(),
    {
        let dest = match &self.procs[self.current.id].instrs[self.current.ip] {
            Op::F64Add(d, _, _) | Op::F64Sub(d, _, _) | Op::F64Mul(d, _, _) | Op::F64Div(d, _, _)
            | Op::F64Exp(d, _, _) | Op::F64Neg(d, _) | Op::F64Eq(d, _, _) | Op::F64Gt(d, _, _)
            | Op::F64Lt(d, _, _) => *d,
            _ => 0,
        };
        let ghost before = self@;
        match self.set_deref(dest, result) {
            Some(r) => r,
            None => {
                let _len: usize = self.procs[self.current.id].instrs.len();
                self.current.ip = self.current.ip + 1;
                proof {
                    match before.store(dest, result@) {
                        Access::Bytes(memory) => {
                            assert(self@ == before.advance(memory, before.current.locals));
                        },
                        Access::Stop(_) => {},
                    }
                }
                self.execute()
            },
        }
    }
}

} // verus!
