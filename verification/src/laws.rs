//! Properties of the machine that hold across its operations.

use vstd::prelude::*;
use crate::byteable::{lemma_word_bytes_of_value, word_value, Byteable};
use crate::data::{ErrorKind, Op};
use crate::vm::{
    bool_result, float_instr, i64_result, isize_result, sub_signed, zeros, Access, BoolOp, FloatOp,
    FrameModel, IntOp, Outcome, Step, VmModel,
};

verus! {

/// A stop that is neither a return nor a float request: a fault, or an error
/// carrying the stack trace of `m`.
pub open spec fn plain_stop(m: VmModel, o: Outcome) -> bool {
    ||| o is Fault
    ||| (o matches Outcome::Error(_, t) && t == m.trace())
}

/// Going on keeps the number of slots and the size of memory; stopping is plain.
pub open spec fn step_shape(m: VmModel, s: Step) -> bool {
    match s {
        Step::Next(memory, locals) => memory.len() == m.memory.len() && locals.len()
            == m.current.locals.len(),
        Step::Stop(o) => plain_stop(m, o),
    }
}

proof fn lemma_load_shape(m: VmModel, local: usize, n: nat)
    ensures
        m.load(local, n) matches Access::Stop(o) ==> plain_stop(m, o),
{
    reveal(VmModel::load);
}

proof fn lemma_store_shape(m: VmModel, dest: usize, bytes: Seq<u8>)
    ensures
        m.store(dest, bytes) matches Access::Stop(o) ==> plain_stop(m, o),
        m.store(dest, bytes) matches Access::Bytes(memory) ==> memory.len() == m.memory.len(),
        step_shape(m, m.store_step(dest, bytes)),
{
    reveal(VmModel::store);
}

proof fn lemma_two_loads(m: VmModel, a: usize, b: usize, n: nat)
    ensures
        m.load(a, n) matches Access::Stop(o) ==> plain_stop(m, o),
        m.load(b, n) matches Access::Stop(o) ==> plain_stop(m, o),
{
    lemma_load_shape(m, a, n);
    lemma_load_shape(m, b, n);
}

proof fn lemma_component_shapes(m: VmModel, d: usize, a: usize, b: usize)
    ensures
        forall|data: Seq<u8>| #[trigger] step_shape(m, m.data_step(d, data)),
        forall|add: bool| #[trigger] step_shape(m, m.local_ptr_step(d, a, b, add)),
        forall|add: bool| #[trigger] step_shape(m, m.ptr_step(d, a, b, add)),
        forall|op: IntOp| #[trigger] step_shape(m, m.i64_step(d, a, b, op)),
        forall|op: IntOp| #[trigger] step_shape(m, m.offset_step(d, a, b, op)),
        step_shape(m, m.i64_neg_step(d, a)),
        step_shape(m, m.offset_neg_step(d, a)),
        forall|op: BoolOp| #[trigger] step_shape(m, m.bool_step(d, a, b, op)),
        step_shape(m, m.not_step(d, a)),
{
    lemma_two_loads(m, a, b, 8);
    lemma_two_loads(m, a, b, 1);
    lemma_load_shape(m, b, 8);
    assert forall|data: Seq<u8>| #[trigger] step_shape(m, m.data_step(d, data)) by {
        reveal(VmModel::data_step);
    }
    assert forall|add: bool| #[trigger] step_shape(m, m.local_ptr_step(d, a, b, add)) by {
        reveal(VmModel::local_ptr_step);
    }
    assert forall|add: bool| #[trigger] step_shape(m, m.ptr_step(d, a, b, add)) by {
        reveal(VmModel::ptr_step);
        let ba = m.load(a, 8);
        let bb = m.load(b, 8);
        if ba is Bytes && bb is Bytes {
            let x = <usize as Byteable<8>>::decoding(ba->Bytes_0);
            let y = <isize as Byteable<8>>::decoding(bb->Bytes_0);
            assert forall|v: usize| #[trigger] step_shape(m, m.store_step(d, v.encoding())) by {
                lemma_store_shape(m, d, v.encoding());
            }
        }
    }
    assert forall|op: IntOp| #[trigger] step_shape(m, m.i64_step(d, a, b, op)) by {
        reveal(VmModel::i64_step);
        assert forall|bytes: Seq<u8>| #[trigger] step_shape(m, m.store_step(d, bytes)) by {
            lemma_store_shape(m, d, bytes);
        }
    }
    assert forall|op: IntOp| #[trigger] step_shape(m, m.offset_step(d, a, b, op)) by {
        reveal(VmModel::offset_step);
        assert forall|bytes: Seq<u8>| #[trigger] step_shape(m, m.store_step(d, bytes)) by {
            lemma_store_shape(m, d, bytes);
        }
    }
    assert(step_shape(m, m.i64_neg_step(d, a))) by {
        reveal(VmModel::i64_neg_step);
        assert forall|bytes: Seq<u8>| #[trigger] step_shape(m, m.store_step(d, bytes)) by {
            lemma_store_shape(m, d, bytes);
        }
    }
    assert(step_shape(m, m.offset_neg_step(d, a))) by {
        reveal(VmModel::offset_neg_step);
        assert forall|bytes: Seq<u8>| #[trigger] step_shape(m, m.store_step(d, bytes)) by {
            lemma_store_shape(m, d, bytes);
        }
    }
    assert forall|op: BoolOp| #[trigger] step_shape(m, m.bool_step(d, a, b, op)) by {
        reveal(VmModel::bool_step);
        assert forall|bytes: Seq<u8>| #[trigger] step_shape(m, m.store_step(d, bytes)) by {
            lemma_store_shape(m, d, bytes);
        }
    }
    assert(step_shape(m, m.not_step(d, a))) by {
        reveal(VmModel::not_step);
        assert forall|bytes: Seq<u8>| #[trigger] step_shape(m, m.store_step(d, bytes)) by {
            lemma_store_shape(m, d, bytes);
        }
    }
}

proof fn lemma_float_step_shape(m: VmModel, op: FloatOp, a: usize, b: Option<usize>)
    ensures
        m.float_step(op, a, b) is Stop,
        m.float_step(op, a, b) matches Step::Stop(o) ==> plain_stop(m, o) || o is Float,
{
    reveal(VmModel::float_step);
    lemma_load_shape(m, a, 8);
    if let Some(b) = b {
        lemma_load_shape(m, b, 8);
    }
}

proof fn lemma_return_step_shape(m: VmModel, x: usize)
    ensures
        m.return_step(x) matches Step::Stop(o) ==> plain_stop(m, o) || o is Returned,
        m.return_step(x) matches Step::Stop(Outcome::Returned(addr)) ==> x < m.current.locals.len()
            && addr == m.current.locals[x as int],
        m.return_step(x) is Stop,
{
    reveal(VmModel::return_step);
}

/// A stop is plain, a float request at a float instruction, or a return at
/// `ReturnLocal` of the address held in its slot.
pub open spec fn stop_shape(m: VmModel) -> bool {
    m.step() matches Step::Stop(o) ==> {
        ||| plain_stop(m, o)
        ||| (o is Float && float_instr(m.instrs()[m.current.ip as int]) is Some)
        ||| (o matches Outcome::Returned(addr) && m.instrs()[m.current.ip as int] is ReturnLocal
            && m.instrs()[m.current.ip as int]->ReturnLocal_0 < m.current.locals.len()
            && m.current.locals[m.instrs()[m.current.ip as int]->ReturnLocal_0 as int] == addr)
    }
}

/// The bytes an instruction adds to memory: the size of an `AllocateData`.
pub open spec fn alloc_size(op: Op<usize>) -> nat {
    match op {
        Op::AllocateData(_, size) => size as nat,
        _ => 0,
    }
}

/// The bytes the instructions from index `from` up to (not including) `to`
/// add to memory.
pub open spec fn allocated(instrs: Seq<Op<usize>>, from: int, to: int) -> nat
    decreases to - from,
{
    if from >= to {
        0
    } else {
        alloc_size(instrs[from]) + allocated(instrs, from + 1, to)
    }
}

proof fn lemma_allocate_shape(m: VmModel, x: usize, size: usize)
    ensures
        m.allocate_step(x, size) matches Step::Next(memory, locals) ==> memory.len() == m.memory.len()
            + size && locals.len() == m.current.locals.len(),
        m.allocate_step(x, size) matches Step::Stop(o) ==> plain_stop(m, o),
{
    reveal(VmModel::allocate_step);
}

/// What a single instruction does, in outline: going on keeps the number of
/// slots and grows memory by exactly what an `AllocateData` allocates; an
/// error carries the stack trace at that
/// instruction; a float result is only awaited at a float instruction; and a
/// return happens only at `ReturnLocal`, with the address held in its slot.
pub proof fn lemma_step_shape(m: VmModel)
    ensures
        m.step() matches Step::Next(memory, locals) ==> memory.len() == m.memory.len() + alloc_size(
            m.instrs()[m.current.ip as int],
        ) && locals.len() == m.current.locals.len(),
        stop_shape(m),
{
    reveal(VmModel::step);
    let op = m.instrs()[m.current.ip as int];
    match op {
        Op::ReturnLocal(x) => {
            lemma_return_step_shape(m, x);
            assert(m.step() == m.return_step(x));
            assert(stop_shape(m));
        },
        Op::F64Add(_, a, b) => {
            lemma_float_step_shape(m, FloatOp::Add, a, Some(b));
            assert(stop_shape(m));
        },
        Op::F64Sub(_, a, b) => {
            lemma_float_step_shape(m, FloatOp::Sub, a, Some(b));
            assert(stop_shape(m));
        },
        Op::F64Mul(_, a, b) => {
            lemma_float_step_shape(m, FloatOp::Mul, a, Some(b));
            assert(stop_shape(m));
        },
        Op::F64Div(_, a, b) => {
            lemma_float_step_shape(m, FloatOp::Div, a, Some(b));
            assert(stop_shape(m));
        },
        Op::F64Exp(_, a, b) => {
            lemma_float_step_shape(m, FloatOp::Exp, a, Some(b));
            assert(stop_shape(m));
        },
        Op::F64Neg(_, a) => {
            lemma_float_step_shape(m, FloatOp::Neg, a, None);
            assert(stop_shape(m));
        },
        Op::F64Eq(_, a, b) => {
            lemma_float_step_shape(m, FloatOp::Eq, a, Some(b));
            assert(stop_shape(m));
        },
        Op::F64Gt(_, a, b) => {
            lemma_float_step_shape(m, FloatOp::Gt, a, Some(b));
            assert(stop_shape(m));
        },
        Op::F64Lt(_, a, b) => {
            lemma_float_step_shape(m, FloatOp::Lt, a, Some(b));
            assert(stop_shape(m));
        },
        Op::AllocateData(x, size) => {
            lemma_allocate_shape(m, x, size);
            assert(m.step() == m.allocate_step(x, size));
        },
        Op::DataToHeap(x, data) => {
            lemma_component_shapes(m, x, 0, 0);
            assert(step_shape(m, m.data_step(x, data@)));
            assert(step_shape(m, m.step()));
        },
        Op::LocalPtrAdd(d, p, o) => {
            lemma_component_shapes(m, d, p, o);
            assert(step_shape(m, m.step()));
        },
        Op::LocalPtrSub(d, p, o) => {
            lemma_component_shapes(m, d, p, o);
            assert(step_shape(m, m.step()));
        },
        Op::PtrAdd(d, a, b) => {
            lemma_component_shapes(m, d, a, b);
            assert(step_shape(m, m.step()));
        },
        Op::PtrSub(d, a, b) => {
            lemma_component_shapes(m, d, a, b);
            assert(step_shape(m, m.step()));
        },
        Op::OffsetAdd(d, a, b) => {
            lemma_component_shapes(m, d, a, b);
            assert(step_shape(m, m.step()));
        },
        Op::OffsetSub(d, a, b) => {
            lemma_component_shapes(m, d, a, b);
            assert(step_shape(m, m.step()));
        },
        Op::OffsetMul(d, a, b) => {
            lemma_component_shapes(m, d, a, b);
            assert(step_shape(m, m.step()));
        },
        Op::OffsetDiv(d, a, b) => {
            lemma_component_shapes(m, d, a, b);
            assert(step_shape(m, m.step()));
        },
        Op::OffsetNeg(d, a) => {
            lemma_component_shapes(m, d, a, 0);
            assert(step_shape(m, m.step()));
        },
        Op::OffsetEq(d, a, b) => {
            lemma_component_shapes(m, d, a, b);
            assert(step_shape(m, m.step()));
        },
        Op::OffsetGt(d, a, b) => {
            lemma_component_shapes(m, d, a, b);
            assert(step_shape(m, m.step()));
        },
        Op::OffsetLt(d, a, b) => {
            lemma_component_shapes(m, d, a, b);
            assert(step_shape(m, m.step()));
        },
        Op::I64Add(d, a, b) => {
            lemma_component_shapes(m, d, a, b);
            assert(step_shape(m, m.step()));
        },
        Op::I64Sub(d, a, b) => {
            lemma_component_shapes(m, d, a, b);
            assert(step_shape(m, m.step()));
        },
        Op::I64Mul(d, a, b) => {
            lemma_component_shapes(m, d, a, b);
            assert(step_shape(m, m.step()));
        },
        Op::I64Div(d, a, b) => {
            lemma_component_shapes(m, d, a, b);
            assert(step_shape(m, m.step()));
        },
        Op::I64Mod(d, a, b) => {
            lemma_component_shapes(m, d, a, b);
            assert(step_shape(m, m.step()));
        },
        Op::I64Neg(d, a) => {
            lemma_component_shapes(m, d, a, 0);
            assert(step_shape(m, m.step()));
        },
        Op::I64Eq(d, a, b) => {
            lemma_component_shapes(m, d, a, b);
            assert(step_shape(m, m.step()));
        },
        Op::I64Gt(d, a, b) => {
            lemma_component_shapes(m, d, a, b);
            assert(step_shape(m, m.step()));
        },
        Op::I64Lt(d, a, b) => {
            lemma_component_shapes(m, d, a, b);
            assert(step_shape(m, m.step()));
        },
        Op::LNot(d, a) => {
            lemma_component_shapes(m, d, a, 0);
            assert(step_shape(m, m.step()));
        },
        Op::LAnd(d, a, b) => {
            lemma_component_shapes(m, d, a, b);
            assert(step_shape(m, m.step()));
        },
        Op::LOr(d, a, b) => {
            lemma_component_shapes(m, d, a, b);
            assert(step_shape(m, m.step()));
        },
        Op::LXor(d, a, b) => {
            lemma_component_shapes(m, d, a, b);
            assert(step_shape(m, m.step()));
        },
        Op::LEq(d, a, b) => {
            lemma_component_shapes(m, d, a, b);
            assert(step_shape(m, m.step()));
        },
        _ => {
            assert(stop_shape(m));
        },
    }
}


/// The machine after `n` instructions that each go on, if the next `n` do.
pub open spec fn after_steps(m: VmModel, n: nat) -> Option<VmModel>
    decreases n,
{
    if n == 0 {
        Some(m)
    } else if m.current.id < m.procs.len() && m.current.ip < m.instrs().len() && m.step() is Next {
        after_steps(m.advance(m.step()->Next_0, m.step()->Next_1), (n - 1) as nat)
    } else {
        None
    }
}

/// A run keeps the program, the frames and the current procedure; it only
/// moves forward, and memory grows by exactly the sizes of the
/// `AllocateData` it passes; it keeps the number of slots; an error it ends
/// with carries the stack trace of the machine as it stopped; it waits for a
/// float result only at a float instruction; it faults only at an
/// instruction that is not `safe`; it returns only at a `ReturnLocal`,
/// with the address held in that instruction's slot; and the machine it
/// stops in is the machine after the instructions it completed, so the
/// instruction it stops at writes nothing.
pub proof fn lemma_run_from(m: VmModel)
    requires
        m.current.id < m.procs.len() ==> m.instrs().len() <= usize::MAX,
    ensures
        m.run_from().0.procs == m.procs,
        m.run_from().0.frames == m.frames,
        m.run_from().0.current.id == m.current.id,
        m.run_from().0.memory.len() >= m.memory.len(),
        m.run_from().0.current.ip >= m.current.ip,
        m.current.id < m.procs.len() && m.current.ip <= m.instrs().len() ==> m.run_from().0.current.ip
            <= m.instrs().len(),
        m.run_from().0.memory.len() == m.memory.len() + allocated(
            m.instrs(),
            m.current.ip as int,
            m.run_from().0.current.ip as int,
        ),
        m.run_from().0.current.locals.len() == m.current.locals.len(),
        m.run_from().1 matches Outcome::Error(_, t) ==> t == m.run_from().0.trace(),
        m.run_from().1 is Float ==> m.run_from().0.awaiting_float(),
        m.run_from().1 is Fault ==> !safe(m.run_from().0),
        after_steps(m, (m.run_from().0.current.ip - m.current.ip) as nat) == Some(m.run_from().0),
        m.run_from().1 matches Outcome::Returned(addr) ==> {
            let m2 = m.run_from().0;
            &&& m2.current.id < m2.procs.len()
            &&& m2.current.ip < m2.instrs().len()
            &&& m2.instrs()[m2.current.ip as int] is ReturnLocal
            &&& m2.instrs()[m2.current.ip as int]->ReturnLocal_0 < m2.current.locals.len()
            &&& addr == m2.current.locals[m2.instrs()[m2.current.ip as int]->ReturnLocal_0 as int]
        },
    decreases m.instrs().len() - m.current.ip,
{
    if m.current.id >= m.procs.len() {
    } else if m.current.ip >= m.instrs().len() {
    } else {
        lemma_step_shape(m);
        if safe(m) {
            lemma_safe_step_no_fault(m);
        }
        match m.step() {
            Step::Next(memory, locals) => {
                lemma_run_from(m.advance(memory, locals));
            },
            Step::Stop(o) => {},
        }
    }
}


/// What is written through a slot is what is read back through it: writing
/// `bytes` at the address held in slot `slot` keeps the memory's length,
/// changes no byte outside the written range, and reading `bytes.len()` bytes
/// through the same slot afterwards gives `bytes`.
pub proof fn lemma_store_then_load(m: VmModel, slot: usize, bytes: Seq<u8>)
    requires
        m.store(slot, bytes) is Bytes,
    ensures
        ({
            let memory = m.store(slot, bytes)->Bytes_0;
            let addr = m.current.locals[slot as int];
            &&& memory.len() == m.memory.len()
            &&& forall|i: int|
                0 <= i < memory.len() && !(addr <= i < addr + bytes.len()) ==> #[trigger] memory[i]
                    == m.memory[i]
            &&& m.with(memory, m.current.locals).load(slot, bytes.len()) == Access::Bytes(bytes)
        }),
{
    reveal(VmModel::store);
    reveal(VmModel::load);
    let memory = m.store(slot, bytes)->Bytes_0;
    let addr = m.current.locals[slot as int];
    assert(memory.subrange(addr as int, addr + bytes.len()) =~= bytes);
}

/// `DataToHeap` puts the literal's bytes where its slot points: reading them
/// back through the slot gives the literal, and nothing else changes.
pub proof fn lemma_data_then_load(m: VmModel, x: usize, data: Seq<u8>)
    requires
        m.data_step(x, data) is Next,
    ensures
        ({
            let memory = m.data_step(x, data)->Next_0;
            let locals = m.data_step(x, data)->Next_1;
            let addr = m.current.locals[x as int];
            &&& locals == m.current.locals
            &&& memory.len() == m.memory.len()
            &&& forall|i: int|
                0 <= i < memory.len() && !(addr <= i < addr + data.len()) ==> #[trigger] memory[i]
                    == m.memory[i]
            &&& m.with(memory, locals).load(x, data.len()) == Access::Bytes(data)
        }),
{
    reveal(VmModel::data_step);
    reveal(VmModel::load);
    let memory = m.data_step(x, data)->Next_0;
    let addr = m.current.locals[x as int];
    assert(memory.subrange(addr as int, addr + data.len()) =~= data);
}

/// `AllocateData(x, size)` hands out a fresh block: slot `x` gets the old end
/// of memory, the memory before it is unchanged, and the `size` new bytes are
/// zero and can be read through slot `x`.
pub proof fn lemma_allocate_fresh(m: VmModel, x: usize, size: usize)
    requires
        m.allocate_step(x, size) is Next,
    ensures
        ({
            let memory = m.allocate_step(x, size)->Next_0;
            let locals = m.allocate_step(x, size)->Next_1;
            &&& locals[x as int] == m.memory.len()
            &&& memory.len() == m.memory.len() + size
            &&& memory.subrange(0, m.memory.len() as int) == m.memory
            &&& m.with(memory, locals).load(x, size as nat) == Access::Bytes(zeros(size as nat))
        }),
{
    reveal(VmModel::allocate_step);
    reveal(VmModel::load);
    let memory = m.allocate_step(x, size)->Next_0;
    assert(memory.subrange(0, m.memory.len() as int) =~= m.memory);
    assert(memory.subrange(m.memory.len() as int, m.memory.len() + size) =~= zeros(size as nat));
}


/// `|x|`.
pub open spec fn abs(x: int) -> int {
    if x < 0 {
        -x
    } else {
        x
    }
}

/// The quotient of `x` by `y`, rounded toward zero.
pub open spec fn quotient(x: int, y: int) -> int {
    if x == 0 {
        0
    } else if (x > 0) == (y > 0) {
        abs(x) / abs(y)
    } else {
        -(abs(x) / abs(y))
    }
}

/// The integer an arithmetic operation computes, exactly.
pub open spec fn exact(op: IntOp, x: int, y: int) -> int {
    match op {
        IntOp::Add => x + y,
        IntOp::Sub => x - y,
        IntOp::Mul => x * y,
        IntOp::Div => quotient(x, y),
        IntOp::Rem => x - y * quotient(x, y),
        _ => 0,
    }
}

/// The truth a comparison computes.
pub open spec fn compares(op: IntOp, x: int, y: int) -> bool {
    match op {
        IntOp::Eq => x == y,
        IntOp::Gt => x > y,
        IntOp::Lt => x < y,
        _ => false,
    }
}

/// An arithmetic operation, as opposed to a comparison.
pub open spec fn is_arith(op: IntOp) -> bool {
    op is Add || op is Sub || op is Mul || op is Div || op is Rem
}

pub(crate) proof fn lemma_div_rem_cases(x: int, y: int)
    requires
        y != 0,
    ensures
        quotient(x, y) == (if x == 0 {
            0
        } else if x > 0 && y > 0 {
            x / y
        } else if x < 0 && y < 0 {
            (x * -1) / (y * -1)
        } else if x < 0 {
            ((x * -1) / y) * -1
        } else {
            (x / (y * -1)) * -1
        }),
        x - y * quotient(x, y) == (if x == 0 {
            0
        } else if x > 0 && y > 0 {
            x % y
        } else if x < 0 && y < 0 {
            ((x * -1) % (y * -1)) * -1
        } else if x < 0 {
            ((x * -1) % y) * -1
        } else {
            x % (y * -1)
        }),
{
    let ax = abs(x);
    let ay = abs(y);
    vstd::arithmetic::div_mod::lemma_fundamental_div_mod(ax, ay);
    assert(ax == ay * (ax / ay) + ax % ay);
    if x == 0 {
    } else if x > 0 && y > 0 {
    } else if x < 0 && y < 0 {
        assert(x * -1 == ax);
        assert(y * -1 == ay);
        assert(y * quotient(x, y) == -(ay * (ax / ay))) by (nonlinear_arith)
            requires
                y == -ay,
                quotient(x, y) == ax / ay,
        ;
    } else if x < 0 {
        assert(x * -1 == ax);
        assert(y == ay);
        assert(y * quotient(x, y) == -(ay * (ax / ay))) by (nonlinear_arith)
            requires
                y == ay,
                quotient(x, y) == -(ax / ay),
        ;
    } else {
        assert(y * -1 == ay);
        assert(x == ax);
        assert(y * quotient(x, y) == ay * (ax / ay)) by (nonlinear_arith)
            requires
                y == -ay,
                quotient(x, y) == -(ax / ay),
        ;
    }
}

/// A binary `i64` instruction stores the exact result: when it goes on, the
/// operands it read through slots `a` and `b` were `x` and `y`, and reading the
/// destination slot afterwards gives `x + y`, `x - y`, `x * y`, the quotient
/// rounded toward zero or its remainder, or the truth of the comparison.
pub proof fn lemma_i64_step_result(m: VmModel, d: usize, a: usize, b: usize, op: IntOp)
    requires
        m.i64_step(d, a, b, op) is Next,
    ensures
        m.load(a, 8) is Bytes,
        m.load(b, 8) is Bytes,
        ({
            let x = <i64 as Byteable<8>>::decoding(m.load(a, 8)->Bytes_0) as int;
            let y = <i64 as Byteable<8>>::decoding(m.load(b, 8)->Bytes_0) as int;
            let after = m.with(m.i64_step(d, a, b, op)->Next_0, m.i64_step(d, a, b, op)->Next_1);
            &&& is_arith(op) ==> (after.load(d, 8) matches Access::Bytes(r) && <i64 as Byteable<
                8,
            >>::decoding(r) as int == exact(op, x, y))
            &&& !is_arith(op) ==> (after.load(d, 1) matches Access::Bytes(r) && <bool as Byteable<
                1,
            >>::decoding(r) == compares(op, x, y))
        }),
{
    reveal(VmModel::i64_step);
    let x = <i64 as Byteable<8>>::decoding(m.load(a, 8)->Bytes_0);
    let y = <i64 as Byteable<8>>::decoding(m.load(b, 8)->Bytes_0);
    let bytes = i64_result(op, x, y)->Ok_0;
    lemma_store_then_load(m, d, bytes);
    if is_arith(op) {
        if op is Div || op is Rem {
            lemma_div_rem_cases(x as int, y as int);
        }
        let w: i64 = match op {
            IntOp::Add => x.checked_add(y)->Some_0,
            IntOp::Sub => x.checked_sub(y)->Some_0,
            IntOp::Mul => x.checked_mul(y)->Some_0,
            IntOp::Div => x.checked_div(y)->Some_0,
            _ => x.checked_rem(y)->Some_0,
        };
        w.lemma_decode_encode();
    } else {
        let t = compares(op, x as int, y as int);
        t.lemma_decode_encode();
    }
}

/// A binary offset (`isize`) instruction stores the exact result: when it goes on, the
/// operands it read through slots `a` and `b` were `x` and `y`, and reading the
/// destination slot afterwards gives `x + y`, `x - y`, `x * y`, the quotient
/// rounded toward zero or its remainder, or the truth of the comparison.
pub proof fn lemma_offset_step_result(m: VmModel, d: usize, a: usize, b: usize, op: IntOp)
    requires
        m.offset_step(d, a, b, op) is Next,
    ensures
        m.load(a, 8) is Bytes,
        m.load(b, 8) is Bytes,
        ({
            let x = <isize as Byteable<8>>::decoding(m.load(a, 8)->Bytes_0) as int;
            let y = <isize as Byteable<8>>::decoding(m.load(b, 8)->Bytes_0) as int;
            let after = m.with(m.offset_step(d, a, b, op)->Next_0, m.offset_step(d, a, b, op)->Next_1);
            &&& is_arith(op) ==> (after.load(d, 8) matches Access::Bytes(r) && <isize as Byteable<
                8,
            >>::decoding(r) as int == exact(op, x, y))
            &&& !is_arith(op) ==> (after.load(d, 1) matches Access::Bytes(r) && <bool as Byteable<
                1,
            >>::decoding(r) == compares(op, x, y))
        }),
{
    reveal(VmModel::offset_step);
    let x = <isize as Byteable<8>>::decoding(m.load(a, 8)->Bytes_0);
    let y = <isize as Byteable<8>>::decoding(m.load(b, 8)->Bytes_0);
    let bytes = isize_result(op, x, y)->Ok_0;
    lemma_store_then_load(m, d, bytes);
    if is_arith(op) {
        if op is Div || op is Rem {
            lemma_div_rem_cases(x as int, y as int);
        }
        let w: isize = match op {
            IntOp::Add => x.checked_add(y)->Some_0,
            IntOp::Sub => x.checked_sub(y)->Some_0,
            IntOp::Mul => x.checked_mul(y)->Some_0,
            IntOp::Div => x.checked_div(y)->Some_0,
            _ => x.checked_rem(y)->Some_0,
        };
        w.lemma_decode_encode();
    } else {
        let t = compares(op, x as int, y as int);
        t.lemma_decode_encode();
    }
}


/// Eight bytes decode to an `i64` whose encoding is those same bytes.
pub proof fn lemma_i64_encode_decode(s: Seq<u8>)
    requires
        s.len() == 8,
    ensures
        <i64 as Byteable<8>>::decoding(s).encoding() == s,
{
    lemma_word_bytes_of_value(s);
    let w = word_value(s);
    assert((w as i64) as u64 == w) by (bit_vector);
}

/// On a 64-bit machine, eight bytes decode to an address and to an offset
/// whose encodings are those same bytes.
pub proof fn lemma_word_encode_decode(s: Seq<u8>)
    requires
        s.len() == 8,
        usize::BITS == 64,
    ensures
        <isize as Byteable<8>>::decoding(s).encoding() == s,
        <usize as Byteable<8>>::decoding(s).encoding() == s,
{
    lemma_word_bytes_of_value(s);
    let w = word_value(s);
    assert((w as usize) as u64 == w) by (bit_vector)
        requires
            usize::BITS == 64,
    ;
    assert((w as isize) as u64 == w) by (bit_vector)
        requires
            usize::BITS == 64,
    ;
}

/// `PtrAdd` / `PtrSub` store the moved address exactly: when they go on,
/// reading the destination afterwards gives the address read through `a`
/// plus (or minus) the offset read through `b`.
pub proof fn lemma_ptr_step_result(m: VmModel, d: usize, a: usize, b: usize, add: bool)
    requires
        m.ptr_step(d, a, b, add) is Next,
    ensures
        m.load(a, 8) is Bytes,
        m.load(b, 8) is Bytes,
        ({
            let x = <usize as Byteable<8>>::decoding(m.load(a, 8)->Bytes_0) as int;
            let y = <isize as Byteable<8>>::decoding(m.load(b, 8)->Bytes_0) as int;
            let after = m.with(m.ptr_step(d, a, b, add)->Next_0, m.ptr_step(d, a, b, add)->Next_1);
            after.load(d, 8) matches Access::Bytes(r) && <usize as Byteable<8>>::decoding(r) as int == (
            if add {
                x + y
            } else {
                x - y
            })
        }),
{
    reveal(VmModel::ptr_step);
    let x = <usize as Byteable<8>>::decoding(m.load(a, 8)->Bytes_0);
    let y = <isize as Byteable<8>>::decoding(m.load(b, 8)->Bytes_0);
    let v = if add { x.checked_add_signed(y)->Some_0 } else { sub_signed(x, y)->Some_0 };
    lemma_store_then_load(m, d, v.encoding());
    v.lemma_decode_encode();
}

/// `LocalPtrAdd` / `LocalPtrSub` move an address between slots: when they go
/// on, memory is unchanged and only slot `d` changes, to the address in slot
/// `p` plus (or minus) the offset read through slot `o`.
pub proof fn lemma_local_ptr_step_result(m: VmModel, d: usize, p: usize, o: usize, add: bool)
    requires
        m.local_ptr_step(d, p, o, add) is Next,
    ensures
        m.load(o, 8) is Bytes,
        p < m.current.locals.len(),
        d < m.current.locals.len(),
        m.local_ptr_step(d, p, o, add)->Next_0 == m.memory,
        m.local_ptr_step(d, p, o, add)->Next_1 == m.current.locals.update(
            d as int,
            (if add {
                m.current.locals[p as int] + <isize as Byteable<8>>::decoding(m.load(o, 8)->Bytes_0)
            } else {
                m.current.locals[p as int] - <isize as Byteable<8>>::decoding(m.load(o, 8)->Bytes_0)
            }) as usize,
        ),
{
    reveal(VmModel::local_ptr_step);
}

/// `I64Neg` and `OffsetNeg` store the negation of the value read through `a`.
pub proof fn lemma_neg_step_result(m: VmModel, d: usize, a: usize)
    ensures
        m.i64_neg_step(d, a) is Next ==> {
            let after = m.with(m.i64_neg_step(d, a)->Next_0, m.i64_neg_step(d, a)->Next_1);
            &&& m.load(a, 8) is Bytes
            &&& after.load(d, 8) matches Access::Bytes(r) && <i64 as Byteable<8>>::decoding(r) as int
                == -(<i64 as Byteable<8>>::decoding(m.load(a, 8)->Bytes_0) as int)
        },
        m.offset_neg_step(d, a) is Next ==> {
            let after = m.with(m.offset_neg_step(d, a)->Next_0, m.offset_neg_step(d, a)->Next_1);
            &&& m.load(a, 8) is Bytes
            &&& after.load(d, 8) matches Access::Bytes(r) && <isize as Byteable<8>>::decoding(r) as int
                == -(<isize as Byteable<8>>::decoding(m.load(a, 8)->Bytes_0) as int)
        },
{
    reveal(VmModel::i64_neg_step);
    reveal(VmModel::offset_neg_step);
    if m.i64_neg_step(d, a) is Next {
        let x = <i64 as Byteable<8>>::decoding(m.load(a, 8)->Bytes_0);
        let v = (-x) as i64;
        lemma_store_then_load(m, d, v.encoding());
        v.lemma_decode_encode();
    }
    if m.offset_neg_step(d, a) is Next {
        let x = <isize as Byteable<8>>::decoding(m.load(a, 8)->Bytes_0);
        let v = (-x) as isize;
        lemma_store_then_load(m, d, v.encoding());
        v.lemma_decode_encode();
    }
}

/// A boolean instruction stores the truth it computes from the booleans read
/// through its operand slots.
pub proof fn lemma_bool_step_result(m: VmModel, d: usize, a: usize, b: usize, op: BoolOp)
    ensures
        m.bool_step(d, a, b, op) is Next ==> {
            let after = m.with(m.bool_step(d, a, b, op)->Next_0, m.bool_step(d, a, b, op)->Next_1);
            &&& m.load(a, 1) is Bytes
            &&& m.load(b, 1) is Bytes
            &&& after.load(d, 1) matches Access::Bytes(r) && <bool as Byteable<1>>::decoding(r)
                == bool_result(
                op,
                <bool as Byteable<1>>::decoding(m.load(a, 1)->Bytes_0),
                <bool as Byteable<1>>::decoding(m.load(b, 1)->Bytes_0),
            )
        },
        m.not_step(d, a) is Next ==> {
            let after = m.with(m.not_step(d, a)->Next_0, m.not_step(d, a)->Next_1);
            &&& m.load(a, 1) is Bytes
            &&& after.load(d, 1) matches Access::Bytes(r) && <bool as Byteable<1>>::decoding(r)
                == !<bool as Byteable<1>>::decoding(m.load(a, 1)->Bytes_0)
        },
{
    reveal(VmModel::bool_step);
    reveal(VmModel::not_step);
    if m.bool_step(d, a, b, op) is Next {
        let t = bool_result(
            op,
            <bool as Byteable<1>>::decoding(m.load(a, 1)->Bytes_0),
            <bool as Byteable<1>>::decoding(m.load(b, 1)->Bytes_0),
        );
        lemma_store_then_load(m, d, t.encoding());
        t.lemma_decode_encode();
    }
    if m.not_step(d, a) is Next {
        let t = !<bool as Byteable<1>>::decoding(m.load(a, 1)->Bytes_0);
        lemma_store_then_load(m, d, t.encoding());
        t.lemma_decode_encode();
    }
}


/// A run of a procedure that does not exist is refused: the machine is left
/// as it was, and the error names the requested procedure and carries the
/// stack trace.
pub proof fn lemma_unknown_entry_refused(m: VmModel, entry: usize)
    requires
        m.procs.len() > 0,
        entry >= m.procs.len(),
    ensures
        m.run(entry) == (m, Outcome::Error(ErrorKind::UnknownProcId(entry), m.trace())),
{
}


/// The instructions the machine carries out (the others are not finished).
pub open spec fn implemented(op: Op<usize>) -> bool {
    match op {
        Op::Jump(..) | Op::BranchTrue(..) | Op::Coroutine(..) | Op::Resume(..) | Op::Yield(..)
        | Op::PtrToHeap(..) | Op::PtrFromHeap(..) | Op::CopyData(..) | Op::SetLocalFromReturn(..)
        | Op::SetLocalFromLocal(..) | Op::SetLocalFromGlobal(..) | Op::SetLocalFromProc(..)
        | Op::SetGlobalFromLocal(..) | Op::Call(..) | Op::DynCall(..) | Op::Nop => false,
        _ => true,
    }
}

/// The slots an implemented instruction names.
pub open spec fn slots(op: Op<usize>) -> Seq<usize> {
    match op {
        Op::AllocateData(x, _) => seq![x],
        Op::DataToHeap(x, _) => seq![x],
        Op::ReturnLocal(x) => seq![x],
        Op::LocalPtrAdd(d, a, b) => seq![d, a, b],
        Op::LocalPtrSub(d, a, b) => seq![d, a, b],
        Op::PtrAdd(d, a, b) => seq![d, a, b],
        Op::PtrSub(d, a, b) => seq![d, a, b],
        Op::OffsetAdd(d, a, b) => seq![d, a, b],
        Op::OffsetSub(d, a, b) => seq![d, a, b],
        Op::OffsetMul(d, a, b) => seq![d, a, b],
        Op::OffsetDiv(d, a, b) => seq![d, a, b],
        Op::OffsetNeg(d, a) => seq![d, a],
        Op::OffsetEq(d, a, b) => seq![d, a, b],
        Op::OffsetGt(d, a, b) => seq![d, a, b],
        Op::OffsetLt(d, a, b) => seq![d, a, b],
        Op::F64Add(d, a, b) => seq![d, a, b],
        Op::F64Sub(d, a, b) => seq![d, a, b],
        Op::F64Mul(d, a, b) => seq![d, a, b],
        Op::F64Div(d, a, b) => seq![d, a, b],
        Op::F64Exp(d, a, b) => seq![d, a, b],
        Op::F64Neg(d, a) => seq![d, a],
        Op::F64Eq(d, a, b) => seq![d, a, b],
        Op::F64Gt(d, a, b) => seq![d, a, b],
        Op::F64Lt(d, a, b) => seq![d, a, b],
        Op::I64Add(d, a, b) => seq![d, a, b],
        Op::I64Sub(d, a, b) => seq![d, a, b],
        Op::I64Mul(d, a, b) => seq![d, a, b],
        Op::I64Div(d, a, b) => seq![d, a, b],
        Op::I64Mod(d, a, b) => seq![d, a, b],
        Op::I64Neg(d, a) => seq![d, a],
        Op::I64Eq(d, a, b) => seq![d, a, b],
        Op::I64Gt(d, a, b) => seq![d, a, b],
        Op::I64Lt(d, a, b) => seq![d, a, b],
        Op::LNot(d, a) => seq![d, a],
        Op::LAnd(d, a, b) => seq![d, a, b],
        Op::LOr(d, a, b) => seq![d, a, b],
        Op::LXor(d, a, b) => seq![d, a, b],
        Op::LEq(d, a, b) => seq![d, a, b],
        _ => seq![],
    }
}

/// Slot `s` exists and eight bytes from its address stay below `usize::MAX`.
pub open spec fn fits(m: VmModel, s: usize) -> bool {
    s < m.current.locals.len() && m.current.locals[s as int] + 8 <= usize::MAX
}

/// An integer operation on operands `x` and `y` within `[lo, hi]` neither
/// overflows nor divides by zero.
pub open spec fn no_overflow(op: IntOp, x: int, y: int, lo: int, hi: int) -> bool {
    match op {
        IntOp::Add | IntOp::Sub | IntOp::Mul => lo <= exact(op, x, y) <= hi,
        IntOp::Div | IntOp::Rem => y != 0 && lo <= quotient(x, y) <= hi,
        _ => true,
    }
}

/// The binary integer operation or comparison an instruction performs, with its operand
/// slots, and whether its values are `i64` (else `isize`).
pub open spec fn int_instr(op: Op<usize>) -> Option<(IntOp, usize, usize, bool)> {
    match op {
        Op::OffsetAdd(_, a, b) => Some((IntOp::Add, a, b, false)),
        Op::OffsetSub(_, a, b) => Some((IntOp::Sub, a, b, false)),
        Op::OffsetMul(_, a, b) => Some((IntOp::Mul, a, b, false)),
        Op::OffsetDiv(_, a, b) => Some((IntOp::Div, a, b, false)),
        Op::OffsetEq(_, a, b) => Some((IntOp::Eq, a, b, false)),
        Op::OffsetGt(_, a, b) => Some((IntOp::Gt, a, b, false)),
        Op::OffsetLt(_, a, b) => Some((IntOp::Lt, a, b, false)),
        Op::I64Add(_, a, b) => Some((IntOp::Add, a, b, true)),
        Op::I64Sub(_, a, b) => Some((IntOp::Sub, a, b, true)),
        Op::I64Mul(_, a, b) => Some((IntOp::Mul, a, b, true)),
        Op::I64Div(_, a, b) => Some((IntOp::Div, a, b, true)),
        Op::I64Mod(_, a, b) => Some((IntOp::Rem, a, b, true)),
        Op::I64Eq(_, a, b) => Some((IntOp::Eq, a, b, true)),
        Op::I64Gt(_, a, b) => Some((IntOp::Gt, a, b, true)),
        Op::I64Lt(_, a, b) => Some((IntOp::Lt, a, b, true)),
        _ => None,
    }
}

/// The value an `i64` (when `wide`) or `isize` operand slot reads, if it reads one.
pub open spec fn operand(m: VmModel, slot: usize, wide: bool) -> int {
    if wide {
        <i64 as Byteable<8>>::decoding(m.load(slot, 8)->Bytes_0) as int
    } else {
        <isize as Byteable<8>>::decoding(m.load(slot, 8)->Bytes_0) as int
    }
}

/// The arithmetic of the current instruction, on the values it reads,
/// neither overflows nor divides by zero.
pub open spec fn arith_safe(m: VmModel) -> bool {
    let op = m.instrs()[m.current.ip as int];
    &&& int_instr(op) matches Some((iop, a, b, wide)) ==> (m.load(a, 8) is Bytes && m.load(b, 8) is Bytes
        ==> if wide {
        no_overflow(iop, operand(m, a, true), operand(m, b, true), i64::MIN as int, i64::MAX as int)
    } else {
        no_overflow(iop, operand(m, a, false), operand(m, b, false), isize::MIN as int, isize::MAX as int)
    })
    &&& op matches Op::I64Neg(_, a) ==> (m.load(a, 8) is Bytes ==> operand(m, a, true) != i64::MIN)
    &&& op matches Op::OffsetNeg(_, a) ==> (m.load(a, 8) is Bytes ==> operand(m, a, false) != isize::MIN)
}

/// The current instruction is one that cannot panic: it is implemented, it is not a return out of a called frame,
/// every slot it names exists and holds an address eight bytes below
/// `usize::MAX` (and the literal it copies fits after its address), an
/// allocation keeps memory within `isize::MAX` bytes, and its arithmetic
/// neither overflows nor divides by zero.
pub open spec fn safe(m: VmModel) -> bool {
    let op = m.instrs()[m.current.ip as int];
    &&& m.current.id < m.procs.len()
    &&& m.current.ip < m.instrs().len()
    &&& implemented(op)
    &&& (op is ReturnLocal ==> m.frames.len() == 0)
    &&& forall|i: int| 0 <= i < slots(op).len() ==> fits(m, #[trigger] slots(op)[i])
    &&& (op matches Op::DataToHeap(x, data) ==> m.current.locals[x as int] + data@.len() <= usize::MAX)
    &&& (op matches Op::AllocateData(_, size) ==> m.memory.len() + size <= isize::MAX)
    &&& arith_safe(m)
}

/// A step that does not stop on a fault.
pub open spec fn no_fault(s: Step) -> bool {
    s matches Step::Stop(o) ==> !(o is Fault)
}

proof fn lemma_load_no_fault(m: VmModel, s: usize, n: nat)
    requires
        fits(m, s),
        n <= 8,
    ensures
        m.load(s, n) matches Access::Stop(o) ==> !(o is Fault),
{
    reveal(VmModel::load);
}

proof fn lemma_store_no_fault(m: VmModel, s: usize, bytes: Seq<u8>)
    requires
        fits(m, s),
        bytes.len() <= 8,
    ensures
        no_fault(m.store_step(s, bytes)),
{
    reveal(VmModel::store);
}

pub(crate) proof fn lemma_i64_result_ok(op: IntOp, x: i64, y: i64)
    requires
        no_overflow(op, x as int, y as int, i64::MIN as int, i64::MAX as int),
    ensures
        i64_result(op, x, y) is Ok,
        i64_result(op, x, y)->Ok_0.len() <= 8,
{
    if op is Div || op is Rem {
        lemma_div_rem_cases(x as int, y as int);
        lemma_remainder_bound(x as int, y as int);
        lemma_remainder_sign(x as int, y as int);
        assert(!(x == i64::MIN && y == -1)) by {
            if x == i64::MIN && y == -1 {
                assert(quotient(x as int, y as int) == 0x8000_0000_0000_0000);
            }
        }
    }
    let v = match op {
        IntOp::Add => x.checked_add(y),
        IntOp::Sub => x.checked_sub(y),
        IntOp::Mul => x.checked_mul(y),
        IntOp::Div => x.checked_div(y),
        _ => x.checked_rem(y),
    };
    if v is Some {
        v->Some_0.lemma_decode_encode();
    }
    (x == y).lemma_decode_encode();
    (x > y).lemma_decode_encode();
    (x < y).lemma_decode_encode();
}

pub(crate) proof fn lemma_isize_result_ok(op: IntOp, x: isize, y: isize)
    requires
        no_overflow(op, x as int, y as int, isize::MIN as int, isize::MAX as int),
    ensures
        isize_result(op, x, y) is Ok,
        isize_result(op, x, y)->Ok_0.len() <= 8,
{
    if op is Div || op is Rem {
        lemma_div_rem_cases(x as int, y as int);
        lemma_remainder_bound(x as int, y as int);
        lemma_remainder_sign(x as int, y as int);
        assert(!(x == isize::MIN && y == -1)) by {
            if x == isize::MIN && y == -1 {
                assert(quotient(x as int, y as int) == -(isize::MIN as int));
            }
        }
    }
    let v = match op {
        IntOp::Add => x.checked_add(y),
        IntOp::Sub => x.checked_sub(y),
        IntOp::Mul => x.checked_mul(y),
        IntOp::Div => x.checked_div(y),
        _ => x.checked_rem(y),
    };
    if v is Some {
        v->Some_0.lemma_decode_encode();
    }
    (x == y).lemma_decode_encode();
    (x > y).lemma_decode_encode();
    (x < y).lemma_decode_encode();
}

proof fn lemma_remainder_sign(x: int, y: int)
    requires
        y != 0,
    ensures
        x >= 0 ==> x - y * quotient(x, y) >= 0,
        x <= 0 ==> x - y * quotient(x, y) <= 0,
{
    lemma_div_rem_cases(x, y);
    let ax = abs(x);
    let ay = abs(y);
    vstd::arithmetic::div_mod::lemma_mod_bound(ax, ay);
    if x > 0 && y < 0 {
        vstd::arithmetic::div_mod::lemma_mod_bound(x, -y);
    } else if x < 0 && y > 0 {
        vstd::arithmetic::div_mod::lemma_mod_bound(-x, y);
    } else if x > 0 {
        vstd::arithmetic::div_mod::lemma_mod_bound(x, y);
    } else if x < 0 {
        vstd::arithmetic::div_mod::lemma_mod_bound(-x, -y);
    }
}

proof fn lemma_remainder_bound(x: int, y: int)
    requires
        y != 0,
    ensures
        abs(x - y * quotient(x, y)) < abs(y),
        abs(x - y * quotient(x, y)) <= abs(x),
{
    let ax = abs(x);
    let ay = abs(y);
    vstd::arithmetic::div_mod::lemma_fundamental_div_mod(ax, ay);
    vstd::arithmetic::div_mod::lemma_mod_bound(ax, ay);
    lemma_div_rem_cases(x, y);
    assert(0 <= ax % ay < ay);
    assert(ax % ay <= ax) by {
        vstd::arithmetic::div_mod::lemma_mod_decreases(ax as nat, ay as nat);
    }
}


proof fn lemma_encodings_fit()
    ensures
        forall|v: usize| #[trigger] v.encoding().len() == 8,
        forall|v: isize| #[trigger] v.encoding().len() == 8,
        forall|v: i64| #[trigger] v.encoding().len() == 8,
        forall|v: bool| #[trigger] v.encoding().len() == 1,
{
    assert forall|v: usize| #[trigger] v.encoding().len() == 8 by {
        v.lemma_decode_encode();
    }
    assert forall|v: isize| #[trigger] v.encoding().len() == 8 by {
        v.lemma_decode_encode();
    }
    assert forall|v: i64| #[trigger] v.encoding().len() == 8 by {
        v.lemma_decode_encode();
    }
}

proof fn lemma_memory_steps_no_fault(m: VmModel, d: usize, a: usize, b: usize)
    requires
        fits(m, d),
        fits(m, a),
        fits(m, b),
    ensures
        forall|add: bool| #[trigger] no_fault(m.local_ptr_step(d, a, b, add)),
        forall|add: bool| #[trigger] no_fault(m.ptr_step(d, a, b, add)),
        forall|op: BoolOp| #[trigger] no_fault(m.bool_step(d, a, b, op)),
        no_fault(m.not_step(d, a)),
        forall|op: FloatOp| #[trigger] no_fault(m.float_step(op, a, Some(b))),
        forall|op: FloatOp| #[trigger] no_fault(m.float_step(op, a, None)),
{
    lemma_encodings_fit();
    lemma_load_no_fault(m, a, 8);
    lemma_load_no_fault(m, b, 8);
    lemma_load_no_fault(m, a, 1);
    lemma_load_no_fault(m, b, 1);
    assert forall|bytes: Seq<u8>| bytes.len() <= 8 implies #[trigger] no_fault(m.store_step(d, bytes)) by {
        lemma_store_no_fault(m, d, bytes);
    }
    assert forall|add: bool| #[trigger] no_fault(m.local_ptr_step(d, a, b, add)) by {
        reveal(VmModel::local_ptr_step);
    }
    assert forall|add: bool| #[trigger] no_fault(m.ptr_step(d, a, b, add)) by {
        reveal(VmModel::ptr_step);
    }
    assert forall|op: BoolOp| #[trigger] no_fault(m.bool_step(d, a, b, op)) by {
        reveal(VmModel::bool_step);
    }
    assert(no_fault(m.not_step(d, a))) by {
        reveal(VmModel::not_step);
    }
    assert forall|op: FloatOp| #[trigger] no_fault(m.float_step(op, a, Some(b))) by {
        reveal(VmModel::float_step);
    }
    assert forall|op: FloatOp| #[trigger] no_fault(m.float_step(op, a, None)) by {
        reveal(VmModel::float_step);
    }
}

proof fn lemma_int_steps_no_fault(m: VmModel, d: usize, a: usize, b: usize, op: IntOp)
    requires
        fits(m, d),
        fits(m, a),
        fits(m, b),
    ensures
        (m.load(a, 8) is Bytes && m.load(b, 8) is Bytes ==> no_overflow(
            op,
            operand(m, a, true),
            operand(m, b, true),
            i64::MIN as int,
            i64::MAX as int,
        )) ==> no_fault(m.i64_step(d, a, b, op)),
        (m.load(a, 8) is Bytes && m.load(b, 8) is Bytes ==> no_overflow(
            op,
            operand(m, a, false),
            operand(m, b, false),
            isize::MIN as int,
            isize::MAX as int,
        )) ==> no_fault(m.offset_step(d, a, b, op)),
        (m.load(a, 8) is Bytes ==> operand(m, a, true) != i64::MIN) ==> no_fault(m.i64_neg_step(d, a)),
        (m.load(a, 8) is Bytes ==> operand(m, a, false) != isize::MIN) ==> no_fault(
            m.offset_neg_step(d, a),
        ),
{
    lemma_encodings_fit();
    lemma_load_no_fault(m, a, 8);
    lemma_load_no_fault(m, b, 8);
    assert forall|bytes: Seq<u8>| bytes.len() <= 8 implies #[trigger] no_fault(m.store_step(d, bytes)) by {
        lemma_store_no_fault(m, d, bytes);
    }
    if m.load(a, 8) is Bytes && m.load(b, 8) is Bytes {
        let xi = <i64 as Byteable<8>>::decoding(m.load(a, 8)->Bytes_0);
        let yi = <i64 as Byteable<8>>::decoding(m.load(b, 8)->Bytes_0);
        if no_overflow(op, xi as int, yi as int, i64::MIN as int, i64::MAX as int) {
            lemma_i64_result_ok(op, xi, yi);
        }
        let xs = <isize as Byteable<8>>::decoding(m.load(a, 8)->Bytes_0);
        let ys = <isize as Byteable<8>>::decoding(m.load(b, 8)->Bytes_0);
        if no_overflow(op, xs as int, ys as int, isize::MIN as int, isize::MAX as int) {
            lemma_isize_result_ok(op, xs, ys);
        }
    }
    reveal(VmModel::i64_step);
    reveal(VmModel::offset_step);
    reveal(VmModel::i64_neg_step);
    reveal(VmModel::offset_neg_step);
}

/// The machine faults only at an instruction that can panic: on an
/// instruction that is `safe` (implemented, slots in range, addresses and lengths within
/// `usize::MAX`, allocations within `isize::MAX`, no overflow and no zero
/// divisor) a step goes on, returns, waits for a float result, or ends in a
/// `VmError`, never in a fault.
pub proof fn lemma_safe_step_no_fault(m: VmModel)
    requires
        safe(m),
    ensures
        no_fault(m.step()),
{
    reveal(VmModel::step);
    let op = m.instrs()[m.current.ip as int];
    let sl = slots(op);
    assert(sl.len() >= 1 ==> fits(m, sl[0]));
    assert(sl.len() >= 2 ==> fits(m, sl[1]));
    assert(sl.len() >= 3 ==> fits(m, sl[2]));
    match op {
        Op::AllocateData(x, size) => {
            reveal(VmModel::allocate_step);
        },
        Op::DataToHeap(x, data) => {
            reveal(VmModel::data_step);
        },
        Op::ReturnLocal(x) => {
            reveal(VmModel::return_step);
        },
        Op::LocalPtrAdd(d, a, b) | Op::LocalPtrSub(d, a, b) | Op::PtrAdd(d, a, b) | Op::PtrSub(d, a, b)
        | Op::LAnd(d, a, b) | Op::LOr(d, a, b) | Op::LXor(d, a, b) | Op::LEq(d, a, b)
        | Op::F64Add(d, a, b) | Op::F64Sub(d, a, b) | Op::F64Mul(d, a, b) | Op::F64Div(d, a, b)
        | Op::F64Exp(d, a, b) | Op::F64Eq(d, a, b) | Op::F64Gt(d, a, b) | Op::F64Lt(d, a, b) => {
            lemma_memory_steps_no_fault(m, d, a, b);
            assert(no_fault(m.step()));
        },
        Op::LNot(d, a) | Op::F64Neg(d, a) => {
            lemma_memory_steps_no_fault(m, d, a, a);
            assert(no_fault(m.step()));
        },
        Op::OffsetAdd(d, a, b) | Op::I64Add(d, a, b) => {
            lemma_int_steps_no_fault(m, d, a, b, IntOp::Add);
        },
        Op::OffsetSub(d, a, b) | Op::I64Sub(d, a, b) => {
            lemma_int_steps_no_fault(m, d, a, b, IntOp::Sub);
        },
        Op::OffsetMul(d, a, b) | Op::I64Mul(d, a, b) => {
            lemma_int_steps_no_fault(m, d, a, b, IntOp::Mul);
        },
        Op::OffsetDiv(d, a, b) | Op::I64Div(d, a, b) => {
            lemma_int_steps_no_fault(m, d, a, b, IntOp::Div);
        },
        Op::I64Mod(d, a, b) => {
            lemma_int_steps_no_fault(m, d, a, b, IntOp::Rem);
        },
        Op::OffsetEq(d, a, b) | Op::I64Eq(d, a, b) => {
            lemma_int_steps_no_fault(m, d, a, b, IntOp::Eq);
        },
        Op::OffsetGt(d, a, b) | Op::I64Gt(d, a, b) => {
            lemma_int_steps_no_fault(m, d, a, b, IntOp::Gt);
        },
        Op::OffsetLt(d, a, b) | Op::I64Lt(d, a, b) => {
            lemma_int_steps_no_fault(m, d, a, b, IntOp::Lt);
        },
        Op::OffsetNeg(d, a) | Op::I64Neg(d, a) => {
            lemma_int_steps_no_fault(m, d, a, a, IntOp::Add);
        },
        _ => {},
    }
}


/// Running procedure `entry` of a machine with no called frames, from its
/// first instruction, is running from there with `entry` current and every
/// slot zero: the run stops at some instruction index `k` no greater
/// than the procedure's length; memory has grown by exactly the sizes of the
/// `AllocateData` among the instructions before `k`; an error carries the
/// one-entry stack trace (the procedure's name, `k`); the machine it stops
/// in is the machine after instructions `0..k`, so instruction `k` writes
/// nothing; and a fault comes only at an instruction that is not `safe`, so
/// a run through safe instructions only ends in a return, a float request or
/// an error.
pub proof fn lemma_run_entry(m: VmModel, entry: usize)
    requires
        m.frames.len() == 0,
        m.current.ip == 0,
        entry < m.procs.len(),
        m.procs[entry as int].frame_size <= isize::MAX / 8,
        m.procs[entry as int].instrs@.len() <= usize::MAX,
    ensures
        ({
            let (after, o) = m.run(entry);
            let instrs = m.procs[entry as int].instrs@;
            &&& after.current.id == entry
            &&& after.current.ip <= instrs.len()
            &&& after.memory.len() == m.memory.len() + allocated(instrs, 0, after.current.ip as int)
            &&& o matches Outcome::Error(_, t) ==> t == seq![(m.procs[entry as int].name, after.current.ip)]
            &&& o is Fault ==> !safe(after)
            &&& m.run(entry) == (VmModel {
                current: FrameModel {
                    id: entry,
                    locals: Seq::new(m.procs[entry as int].frame_size as nat, |i: int| 0usize),
                    ..m.current
                },
                ..m
            }).run_from()
            &&& after_steps(
                VmModel {
                    current: FrameModel {
                        id: entry,
                        locals: Seq::new(m.procs[entry as int].frame_size as nat, |i: int| 0usize),
                        ..m.current
                    },
                    ..m
                },
                after.current.ip as nat,
            ) == Some(after)
        }),
{
    let size = m.procs[entry as int].frame_size;
    let start = VmModel {
        current: FrameModel { id: entry, locals: Seq::new(size as nat, |i: int| 0usize), ..m.current },
        ..m
    };
    assert(m.run(entry) == start.run_from());
    lemma_run_from(start);
    let after = start.run_from().0;
    assert(after.trace() =~= seq![(m.procs[entry as int].name, after.current.ip)]);
}


/// Through `step`, an integer instruction whose operand slots may name its
/// destination reads both operands before writing: when the step goes on,
/// reading the destination afterwards gives the exact result of the
/// operands as they were before the instruction (so `I64Add(0, 0, 0)` on 3
/// leaves 6).
pub open spec fn int_step_reads_back(m: VmModel) -> bool
{
    let op = m.instrs()[m.current.ip as int];
    m.step() is Next && int_instr(op) is Some ==> {
        let (iop, a, b, wide) = int_instr(op)->Some_0;
        let after = m.with(m.step()->Next_0, m.step()->Next_1);
        let d = slots(op)[0];
        &&& m.load(a, 8) is Bytes
        &&& m.load(b, 8) is Bytes
        &&& is_arith(iop) ==> (after.load(d, 8) matches Access::Bytes(r) && (if wide {
            <i64 as Byteable<8>>::decoding(r) as int
        } else {
            <isize as Byteable<8>>::decoding(r) as int
        }) == exact(iop, operand(m, a, wide), operand(m, b, wide)))
        &&& !is_arith(iop) ==> (after.load(d, 1) matches Access::Bytes(r)
            && <bool as Byteable<1>>::decoding(r) == compares(
            iop,
            operand(m, a, wide),
            operand(m, b, wide),
        ))
    }
}

/// `int_step_reads_back` holds of every machine.
pub proof fn lemma_step_int_result(m: VmModel)
    ensures
        int_step_reads_back(m),
{
    reveal(VmModel::step);
    let op = m.instrs()[m.current.ip as int];
    match op {
        Op::OffsetAdd(d, a, b) => if m.step() is Next {
            lemma_offset_step_result(m, d, a, b, IntOp::Add);
        },
        Op::OffsetSub(d, a, b) => if m.step() is Next {
            lemma_offset_step_result(m, d, a, b, IntOp::Sub);
        },
        Op::OffsetMul(d, a, b) => if m.step() is Next {
            lemma_offset_step_result(m, d, a, b, IntOp::Mul);
        },
        Op::OffsetDiv(d, a, b) => if m.step() is Next {
            lemma_offset_step_result(m, d, a, b, IntOp::Div);
        },
        Op::I64Add(d, a, b) => if m.step() is Next {
            lemma_i64_step_result(m, d, a, b, IntOp::Add);
        },
        Op::I64Sub(d, a, b) => if m.step() is Next {
            lemma_i64_step_result(m, d, a, b, IntOp::Sub);
        },
        Op::I64Mul(d, a, b) => if m.step() is Next {
            lemma_i64_step_result(m, d, a, b, IntOp::Mul);
        },
        Op::I64Div(d, a, b) => if m.step() is Next {
            lemma_i64_step_result(m, d, a, b, IntOp::Div);
        },
        Op::I64Mod(d, a, b) => if m.step() is Next {
            lemma_i64_step_result(m, d, a, b, IntOp::Rem);
        },
        Op::OffsetEq(d, a, b) => if m.step() is Next {
            lemma_offset_step_result(m, d, a, b, IntOp::Eq);
        },
        Op::OffsetGt(d, a, b) => if m.step() is Next {
            lemma_offset_step_result(m, d, a, b, IntOp::Gt);
        },
        Op::OffsetLt(d, a, b) => if m.step() is Next {
            lemma_offset_step_result(m, d, a, b, IntOp::Lt);
        },
        Op::I64Eq(d, a, b) => if m.step() is Next {
            lemma_i64_step_result(m, d, a, b, IntOp::Eq);
        },
        Op::I64Gt(d, a, b) => if m.step() is Next {
            lemma_i64_step_result(m, d, a, b, IntOp::Gt);
        },
        Op::I64Lt(d, a, b) => if m.step() is Next {
            lemma_i64_step_result(m, d, a, b, IntOp::Lt);
        },
        _ => {},
    }
}

} // verus!
