//! What each instruction does, stated directly over the values it reads:
//! the meaning of `VmModel::step` and `VmModel::complete_float` instruction
//! by instruction.

use vstd::prelude::*;
use crate::byteable::Byteable;
use crate::data::{ErrorKind, Op};
use crate::vm::{i64_result, isize_result, Access, Fault, FloatOp, IntOp, Outcome, Step, VmModel};
use crate::laws::{
    lemma_div_rem_cases, lemma_i64_result_ok, lemma_isize_result_ok, no_overflow, quotient,
};

verus! {

/// The machine can hold its memory: its length fits in a `usize`.
pub open spec fn valid(m: VmModel) -> bool {
    &&& m.memory.len() <= usize::MAX
    &&& m.current.id < m.procs.len()
    &&& m.current.ip < m.instrs().len()
}

/// The current instruction.
pub open spec fn instr(m: VmModel) -> Op<usize> {
    m.instrs()[m.current.ip as int]
}

/// Slot `d` exists and `w` bytes from its address lie in memory.
pub open spec fn room(m: VmModel, d: usize, w: nat) -> bool {
    d < m.current.locals.len() && m.current.locals[d as int] + w <= m.memory.len()
}

/// The bytes at the address held in slot `s`, `w` of them.
pub open spec fn at(m: VmModel, s: usize, w: nat) -> Seq<u8> {
    m.memory.subrange(m.current.locals[s as int] as int, m.current.locals[s as int] + w)
}

/// The step goes on with the slots unchanged and with memory changed only
/// where `bytes` are written, at the address held in slot `d`.
pub open spec fn writes(m: VmModel, s: Step, d: usize, bytes: Seq<u8>) -> bool {
    let addr = m.current.locals[d as int];
    &&& s is Next
    &&& s->Next_1 == m.current.locals
    &&& s->Next_0.len() == m.memory.len()
    &&& forall|i: int|
        0 <= i < m.memory.len() ==> #[trigger] s->Next_0[i] == if addr <= i < addr + bytes.len() {
            bytes[i - addr]
        } else {
            m.memory[i]
        }
}

/// The one-byte encoding of a truth value.
pub open spec fn truth(b: bool) -> Seq<u8> {
    seq![if b { 1u8 } else { 0u8 }]
}

proof fn lemma_load_at(m: VmModel, s: usize, w: nat)
    requires
        valid(m),
        room(m, s, w),
    ensures
        m.load(s, w) == Access::Bytes(at(m, s, w)),
        at(m, s, w).len() == w,
{
    reveal(VmModel::load);
}

proof fn lemma_store_writes(m: VmModel, d: usize, bytes: Seq<u8>)
    requires
        valid(m),
        room(m, d, bytes.len()),
    ensures
        writes(m, m.store_step(d, bytes), d, bytes),
{
    reveal(VmModel::store);
}

/// Boolean instructions: a byte is true when it is not zero, and the
/// destination gets one byte, 1 for true and 0 for false. `LAnd` stores
/// `x && y`, `LOr` stores `x || y`, `LXor` stores `x != y`, `LEq` stores
/// `x == y` and `LNot` stores `!x`, where `x` and `y` are the bytes at the
/// addresses in the operand slots.
pub proof fn lemma_bool_instructions(m: VmModel)
    requires
        valid(m),
    ensures
        instr(m) matches Op::LAnd(d, a, b) ==> (room(m, a, 1) && room(m, b, 1) && room(m, d, 1) ==> writes(
            m,
            m.step(),
            d,
            truth(at(m, a, 1)[0] != 0 && at(m, b, 1)[0] != 0),
        )),
        instr(m) matches Op::LOr(d, a, b) ==> (room(m, a, 1) && room(m, b, 1) && room(m, d, 1) ==> writes(
            m,
            m.step(),
            d,
            truth(at(m, a, 1)[0] != 0 || at(m, b, 1)[0] != 0),
        )),
        instr(m) matches Op::LXor(d, a, b) ==> (room(m, a, 1) && room(m, b, 1) && room(m, d, 1) ==> writes(
            m,
            m.step(),
            d,
            truth((at(m, a, 1)[0] != 0) != (at(m, b, 1)[0] != 0)),
        )),
        instr(m) matches Op::LEq(d, a, b) ==> (room(m, a, 1) && room(m, b, 1) && room(m, d, 1) ==> writes(
            m,
            m.step(),
            d,
            truth((at(m, a, 1)[0] != 0) == (at(m, b, 1)[0] != 0)),
        )),
        instr(m) matches Op::LNot(d, a) ==> (room(m, a, 1) && room(m, d, 1) ==> writes(
            m,
            m.step(),
            d,
            truth(!(at(m, a, 1)[0] != 0)),
        )),
{
    reveal(VmModel::step);
    reveal(VmModel::bool_step);
    reveal(VmModel::not_step);
    match instr(m) {
        Op::LAnd(d, a, b) | Op::LOr(d, a, b) | Op::LXor(d, a, b) | Op::LEq(d, a, b) => {
            if room(m, a, 1) && room(m, b, 1) && room(m, d, 1) {
                lemma_load_at(m, a, 1);
                lemma_load_at(m, b, 1);
                assert forall|t: bool| #[trigger] truth(t) == t.encoding() by {}
                assert forall|t: bool| writes(m, m.store_step(d, #[trigger] truth(t)), d, truth(t)) by {
                    lemma_store_writes(m, d, truth(t));
                }
            }
        },
        Op::LNot(d, a) => {
            if room(m, a, 1) && room(m, d, 1) {
                lemma_load_at(m, a, 1);
                assert forall|t: bool| #[trigger] truth(t) == t.encoding() by {}
                assert forall|t: bool| writes(m, m.store_step(d, #[trigger] truth(t)), d, truth(t)) by {
                    lemma_store_writes(m, d, truth(t));
                }
            }
        },
        _ => {},
    }
}

/// Float instructions read both operands, the first through the first
/// operand slot and the second through the second, and stop with them
/// handed out, in that order, under the instruction's operation.
pub proof fn lemma_float_instructions(m: VmModel)
    requires
        valid(m),
    ensures
        instr(m) matches Op::F64Add(_, a, b) ==> (room(m, a, 8) && room(m, b, 8) ==> m.step()
            == Step::Stop(Outcome::Float(FloatOp::Add, at(m, a, 8), Some(at(m, b, 8))))),
        instr(m) matches Op::F64Sub(_, a, b) ==> (room(m, a, 8) && room(m, b, 8) ==> m.step()
            == Step::Stop(Outcome::Float(FloatOp::Sub, at(m, a, 8), Some(at(m, b, 8))))),
        instr(m) matches Op::F64Mul(_, a, b) ==> (room(m, a, 8) && room(m, b, 8) ==> m.step()
            == Step::Stop(Outcome::Float(FloatOp::Mul, at(m, a, 8), Some(at(m, b, 8))))),
        instr(m) matches Op::F64Div(_, a, b) ==> (room(m, a, 8) && room(m, b, 8) ==> m.step()
            == Step::Stop(Outcome::Float(FloatOp::Div, at(m, a, 8), Some(at(m, b, 8))))),
        instr(m) matches Op::F64Exp(_, a, b) ==> (room(m, a, 8) && room(m, b, 8) ==> m.step()
            == Step::Stop(Outcome::Float(FloatOp::Exp, at(m, a, 8), Some(at(m, b, 8))))),
        instr(m) matches Op::F64Eq(_, a, b) ==> (room(m, a, 8) && room(m, b, 8) ==> m.step()
            == Step::Stop(Outcome::Float(FloatOp::Eq, at(m, a, 8), Some(at(m, b, 8))))),
        instr(m) matches Op::F64Gt(_, a, b) ==> (room(m, a, 8) && room(m, b, 8) ==> m.step()
            == Step::Stop(Outcome::Float(FloatOp::Gt, at(m, a, 8), Some(at(m, b, 8))))),
        instr(m) matches Op::F64Lt(_, a, b) ==> (room(m, a, 8) && room(m, b, 8) ==> m.step()
            == Step::Stop(Outcome::Float(FloatOp::Lt, at(m, a, 8), Some(at(m, b, 8))))),
        instr(m) matches Op::F64Neg(_, a) ==> (room(m, a, 8) ==> m.step() == Step::Stop(
            Outcome::Float(FloatOp::Neg, at(m, a, 8), None),
        )),
{
    reveal(VmModel::step);
    reveal(VmModel::float_step);
    match instr(m) {
        Op::F64Add(_, a, b) | Op::F64Sub(_, a, b) | Op::F64Mul(_, a, b) | Op::F64Div(_, a, b)
        | Op::F64Exp(_, a, b) | Op::F64Eq(_, a, b) | Op::F64Gt(_, a, b) | Op::F64Lt(_, a, b) => {
            if room(m, a, 8) && room(m, b, 8) {
                lemma_load_at(m, a, 8);
                lemma_load_at(m, b, 8);
            }
        },
        Op::F64Neg(_, a) => {
            if room(m, a, 8) {
                lemma_load_at(m, a, 8);
            }
        },
        _ => {},
    }
}


/// The `i64` value stored at the address held in slot `s`.
pub open spec fn i64_at(m: VmModel, s: usize) -> int {
    <i64 as Byteable<8>>::decoding(at(m, s, 8)) as int
}

proof fn lemma_i64_op(m: VmModel, d: usize, a: usize, b: usize, op: IntOp)
    requires
        valid(m),
        room(m, a, 8),
        room(m, b, 8),
        room(m, d, 8),
    ensures
        no_overflow(op, i64_at(m, a), i64_at(m, b), i64::MIN as int, i64::MAX as int) ==> {
            &&& i64_result(op, i64_at(m, a) as i64, i64_at(m, b) as i64) is Ok
            &&& writes(m, m.i64_step(d, a, b, op), d, i64_result(op, i64_at(m, a) as i64, i64_at(m, b) as i64)->Ok_0)
        },
{
    reveal(VmModel::i64_step);
    lemma_load_at(m, a, 8);
    lemma_load_at(m, b, 8);
    let x = <i64 as Byteable<8>>::decoding(at(m, a, 8));
    let y = <i64 as Byteable<8>>::decoding(at(m, b, 8));
    if no_overflow(op, x as int, y as int, i64::MIN as int, i64::MAX as int) {
        lemma_i64_result_ok(op, x, y);
        if op is Div || op is Rem {
            lemma_div_rem_cases(x as int, y as int);
        }
        lemma_store_writes(m, d, i64_result(op, x, y)->Ok_0);
    }
}

/// `i64` instructions store their exact result at the address in
/// the destination slot, the operands being the values at the addresses in
/// the operand slots as they were before the instruction (so a destination
/// that is also an operand is read first): `x + y`, `x - y`, `x * y`, the
/// quotient rounded toward zero, the remainder `x - y * quotient`, `-x`, or
/// one byte for the truth of `x == y`, `x > y` or `x < y`, whenever the
/// operands and the destination lie in memory and the result is a `i64`
/// (and the divisor is not zero). Memory changes nowhere else and no slot
/// changes.
pub proof fn lemma_i64_instructions(m: VmModel)
    requires
        valid(m),
    ensures
        instr(m) matches Op::I64Add(d, a, b) ==> (room(m, a, 8) && room(m, b, 8) && room(m, d, 8) && i64::MIN <= i64_at(m, a) + i64_at(m, b) <= i64::MAX ==> writes(
            m,
            m.step(),
            d,
            ((i64_at(m, a) + i64_at(m, b)) as i64).encoding(),
        )),
        instr(m) matches Op::I64Sub(d, a, b) ==> (room(m, a, 8) && room(m, b, 8) && room(m, d, 8) && i64::MIN <= i64_at(m, a) - i64_at(m, b) <= i64::MAX ==> writes(
            m,
            m.step(),
            d,
            ((i64_at(m, a) - i64_at(m, b)) as i64).encoding(),
        )),
        instr(m) matches Op::I64Mul(d, a, b) ==> (room(m, a, 8) && room(m, b, 8) && room(m, d, 8) && i64::MIN <= i64_at(m, a) * i64_at(m, b) <= i64::MAX ==> writes(
            m,
            m.step(),
            d,
            ((i64_at(m, a) * i64_at(m, b)) as i64).encoding(),
        )),
        instr(m) matches Op::I64Div(d, a, b) ==> (room(m, a, 8) && room(m, b, 8) && room(m, d, 8) && i64_at(m, b) != 0 && i64::MIN <= quotient(i64_at(m, a), i64_at(m, b)) <= i64::MAX ==> writes(
            m,
            m.step(),
            d,
            (quotient(i64_at(m, a), i64_at(m, b)) as i64).encoding(),
        )),
        instr(m) matches Op::I64Mod(d, a, b) ==> (room(m, a, 8) && room(m, b, 8) && room(m, d, 8) && i64_at(m, b) != 0 && i64::MIN <= quotient(i64_at(m, a), i64_at(m, b)) <= i64::MAX ==> writes(
            m,
            m.step(),
            d,
            ((i64_at(m, a) - i64_at(m, b) * quotient(i64_at(m, a), i64_at(m, b))) as i64).encoding(),
        )),
        instr(m) matches Op::I64Eq(d, a, b) ==> (room(m, a, 8) && room(m, b, 8) && room(m, d, 8) ==> writes(
            m,
            m.step(),
            d,
            truth(i64_at(m, a) == i64_at(m, b)),
        )),
        instr(m) matches Op::I64Gt(d, a, b) ==> (room(m, a, 8) && room(m, b, 8) && room(m, d, 8) ==> writes(
            m,
            m.step(),
            d,
            truth(i64_at(m, a) > i64_at(m, b)),
        )),
        instr(m) matches Op::I64Lt(d, a, b) ==> (room(m, a, 8) && room(m, b, 8) && room(m, d, 8) ==> writes(
            m,
            m.step(),
            d,
            truth(i64_at(m, a) < i64_at(m, b)),
        )),
        instr(m) matches Op::I64Neg(d, a) ==> (room(m, a, 8) && room(m, d, 8) && i64_at(m, a) != i64::MIN ==> writes(
            m,
            m.step(),
            d,
            ((-i64_at(m, a)) as i64).encoding(),
        )),
{
    reveal(VmModel::step);
    reveal(VmModel::i64_neg_step);
    match instr(m) {
        Op::I64Add(d, a, b) => if room(m, a, 8) && room(m, b, 8) && room(m, d, 8) {
            lemma_i64_op(m, d, a, b, IntOp::Add);
        },
        Op::I64Sub(d, a, b) => if room(m, a, 8) && room(m, b, 8) && room(m, d, 8) {
            lemma_i64_op(m, d, a, b, IntOp::Sub);
        },
        Op::I64Mul(d, a, b) => if room(m, a, 8) && room(m, b, 8) && room(m, d, 8) {
            lemma_i64_op(m, d, a, b, IntOp::Mul);
        },
        Op::I64Div(d, a, b) => if room(m, a, 8) && room(m, b, 8) && room(m, d, 8) {
            lemma_i64_op(m, d, a, b, IntOp::Div);
        },
        Op::I64Mod(d, a, b) => if room(m, a, 8) && room(m, b, 8) && room(m, d, 8) {
            lemma_i64_op(m, d, a, b, IntOp::Rem);
            if i64_at(m, b) != 0 {
                lemma_div_rem_cases(i64_at(m, a), i64_at(m, b));
            }
        },
        Op::I64Eq(d, a, b) => if room(m, a, 8) && room(m, b, 8) && room(m, d, 8) {
            lemma_i64_op(m, d, a, b, IntOp::Eq);
        },
        Op::I64Gt(d, a, b) => if room(m, a, 8) && room(m, b, 8) && room(m, d, 8) {
            lemma_i64_op(m, d, a, b, IntOp::Gt);
        },
        Op::I64Lt(d, a, b) => if room(m, a, 8) && room(m, b, 8) && room(m, d, 8) {
            lemma_i64_op(m, d, a, b, IntOp::Lt);
        },
        Op::I64Neg(d, a) => if room(m, a, 8) && room(m, d, 8) {
            lemma_load_at(m, a, 8);
            let v = <i64 as Byteable<8>>::decoding(at(m, a, 8));
            if v != i64::MIN {
                let w = (-v) as i64;
                w.lemma_decode_encode();
                lemma_store_writes(m, d, w.encoding());
            }
        },
        _ => {},
    }
}

/// The offset (`isize`) value stored at the address held in slot `s`.
pub open spec fn isize_at(m: VmModel, s: usize) -> int {
    <isize as Byteable<8>>::decoding(at(m, s, 8)) as int
}

proof fn lemma_isize_op(m: VmModel, d: usize, a: usize, b: usize, op: IntOp)
    requires
        valid(m),
        room(m, a, 8),
        room(m, b, 8),
        room(m, d, 8),
    ensures
        no_overflow(op, isize_at(m, a), isize_at(m, b), isize::MIN as int, isize::MAX as int) ==> {
            &&& isize_result(op, isize_at(m, a) as isize, isize_at(m, b) as isize) is Ok
            &&& writes(m, m.offset_step(d, a, b, op), d, isize_result(op, isize_at(m, a) as isize, isize_at(m, b) as isize)->Ok_0)
        },
{
    reveal(VmModel::offset_step);
    lemma_load_at(m, a, 8);
    lemma_load_at(m, b, 8);
    let x = <isize as Byteable<8>>::decoding(at(m, a, 8));
    let y = <isize as Byteable<8>>::decoding(at(m, b, 8));
    if no_overflow(op, x as int, y as int, isize::MIN as int, isize::MAX as int) {
        lemma_isize_result_ok(op, x, y);
        if op is Div || op is Rem {
            lemma_div_rem_cases(x as int, y as int);
        }
        lemma_store_writes(m, d, isize_result(op, x, y)->Ok_0);
    }
}

/// Offset (`isize`) instructions store their exact result at the address in
/// the destination slot, the operands being the values at the addresses in
/// the operand slots as they were before the instruction (so a destination
/// that is also an operand is read first): `x + y`, `x - y`, `x * y`, the
/// quotient rounded toward zero, `-x`, or
/// one byte for the truth of `x == y`, `x > y` or `x < y`, whenever the
/// operands and the destination lie in memory and the result is a offset (`isize`)
/// (and the divisor is not zero). Memory changes nowhere else and no slot
/// changes.
pub proof fn lemma_offset_instructions(m: VmModel)
    requires
        valid(m),
    ensures
        instr(m) matches Op::OffsetAdd(d, a, b) ==> (room(m, a, 8) && room(m, b, 8) && room(m, d, 8) && isize::MIN <= isize_at(m, a) + isize_at(m, b) <= isize::MAX ==> writes(
            m,
            m.step(),
            d,
            ((isize_at(m, a) + isize_at(m, b)) as isize).encoding(),
        )),
        instr(m) matches Op::OffsetSub(d, a, b) ==> (room(m, a, 8) && room(m, b, 8) && room(m, d, 8) && isize::MIN <= isize_at(m, a) - isize_at(m, b) <= isize::MAX ==> writes(
            m,
            m.step(),
            d,
            ((isize_at(m, a) - isize_at(m, b)) as isize).encoding(),
        )),
        instr(m) matches Op::OffsetMul(d, a, b) ==> (room(m, a, 8) && room(m, b, 8) && room(m, d, 8) && isize::MIN <= isize_at(m, a) * isize_at(m, b) <= isize::MAX ==> writes(
            m,
            m.step(),
            d,
            ((isize_at(m, a) * isize_at(m, b)) as isize).encoding(),
        )),
        instr(m) matches Op::OffsetDiv(d, a, b) ==> (room(m, a, 8) && room(m, b, 8) && room(m, d, 8) && isize_at(m, b) != 0 && isize::MIN <= quotient(isize_at(m, a), isize_at(m, b)) <= isize::MAX ==> writes(
            m,
            m.step(),
            d,
            (quotient(isize_at(m, a), isize_at(m, b)) as isize).encoding(),
        )),
        instr(m) matches Op::OffsetEq(d, a, b) ==> (room(m, a, 8) && room(m, b, 8) && room(m, d, 8) ==> writes(
            m,
            m.step(),
            d,
            truth(isize_at(m, a) == isize_at(m, b)),
        )),
        instr(m) matches Op::OffsetGt(d, a, b) ==> (room(m, a, 8) && room(m, b, 8) && room(m, d, 8) ==> writes(
            m,
            m.step(),
            d,
            truth(isize_at(m, a) > isize_at(m, b)),
        )),
        instr(m) matches Op::OffsetLt(d, a, b) ==> (room(m, a, 8) && room(m, b, 8) && room(m, d, 8) ==> writes(
            m,
            m.step(),
            d,
            truth(isize_at(m, a) < isize_at(m, b)),
        )),
        instr(m) matches Op::OffsetNeg(d, a) ==> (room(m, a, 8) && room(m, d, 8) && isize_at(m, a) != isize::MIN ==> writes(
            m,
            m.step(),
            d,
            ((-isize_at(m, a)) as isize).encoding(),
        )),
{
    reveal(VmModel::step);
    reveal(VmModel::offset_neg_step);
    match instr(m) {
        Op::OffsetAdd(d, a, b) => if room(m, a, 8) && room(m, b, 8) && room(m, d, 8) {
            lemma_isize_op(m, d, a, b, IntOp::Add);
        },
        Op::OffsetSub(d, a, b) => if room(m, a, 8) && room(m, b, 8) && room(m, d, 8) {
            lemma_isize_op(m, d, a, b, IntOp::Sub);
        },
        Op::OffsetMul(d, a, b) => if room(m, a, 8) && room(m, b, 8) && room(m, d, 8) {
            lemma_isize_op(m, d, a, b, IntOp::Mul);
        },
        Op::OffsetDiv(d, a, b) => if room(m, a, 8) && room(m, b, 8) && room(m, d, 8) {
            lemma_isize_op(m, d, a, b, IntOp::Div);
        },
        Op::OffsetEq(d, a, b) => if room(m, a, 8) && room(m, b, 8) && room(m, d, 8) {
            lemma_isize_op(m, d, a, b, IntOp::Eq);
        },
        Op::OffsetGt(d, a, b) => if room(m, a, 8) && room(m, b, 8) && room(m, d, 8) {
            lemma_isize_op(m, d, a, b, IntOp::Gt);
        },
        Op::OffsetLt(d, a, b) => if room(m, a, 8) && room(m, b, 8) && room(m, d, 8) {
            lemma_isize_op(m, d, a, b, IntOp::Lt);
        },
        Op::OffsetNeg(d, a) => if room(m, a, 8) && room(m, d, 8) {
            lemma_load_at(m, a, 8);
            let v = <isize as Byteable<8>>::decoding(at(m, a, 8));
            if v != isize::MIN {
                let w = (-v) as isize;
                w.lemma_decode_encode();
                lemma_store_writes(m, d, w.encoding());
            }
        },
        _ => {},
    }
}


/// The address value stored at the address held in slot `s`.
pub open spec fn usize_at(m: VmModel, s: usize) -> int {
    <usize as Byteable<8>>::decoding(at(m, s, 8)) as int
}

/// Pointer instructions move an address by a signed offset. `LocalPtrAdd`
/// and `LocalPtrSub` set slot `d` to the address in slot `p` plus (minus)
/// the offset at the address in slot `o`, changing nothing else; `PtrAdd`
/// and `PtrSub` store the address at slot `a`'s address plus (minus) the
/// offset at slot `b`'s address, at slot `d`'s address. The move fails with
/// `BinMathOp` exactly when the result is not a `usize`.
pub proof fn lemma_pointer_instructions(m: VmModel)
    requires
        valid(m),
    ensures
        instr(m) matches Op::LocalPtrAdd(d, p, o) ==> (room(m, o, 8) && p < m.current.locals.len() && d
            < m.current.locals.len() ==> if 0 <= m.current.locals[p as int] + isize_at(m, o) <= usize::MAX {
            m.step() == Step::Next(
                m.memory,
                m.current.locals.update(d as int, (m.current.locals[p as int] + isize_at(m, o)) as usize),
            )
        } else {
            m.step() == Step::Stop(Outcome::Error(ErrorKind::BinMathOp, m.trace()))
        }),
        instr(m) matches Op::LocalPtrSub(d, p, o) ==> (room(m, o, 8) && p < m.current.locals.len() && d
            < m.current.locals.len() ==> if 0 <= m.current.locals[p as int] - isize_at(m, o) <= usize::MAX {
            m.step() == Step::Next(
                m.memory,
                m.current.locals.update(d as int, (m.current.locals[p as int] - isize_at(m, o)) as usize),
            )
        } else {
            m.step() == Step::Stop(Outcome::Error(ErrorKind::BinMathOp, m.trace()))
        }),
        instr(m) matches Op::PtrAdd(d, a, b) ==> (room(m, a, 8) && room(m, b, 8) && room(m, d, 8) ==> if 0
            <= usize_at(m, a) + isize_at(m, b) <= usize::MAX {
            writes(m, m.step(), d, ((usize_at(m, a) + isize_at(m, b)) as usize).encoding())
        } else {
            m.step() == Step::Stop(Outcome::Error(ErrorKind::BinMathOp, m.trace()))
        }),
        instr(m) matches Op::PtrSub(d, a, b) ==> (room(m, a, 8) && room(m, b, 8) && room(m, d, 8) ==> if 0
            <= usize_at(m, a) - isize_at(m, b) <= usize::MAX {
            writes(m, m.step(), d, ((usize_at(m, a) - isize_at(m, b)) as usize).encoding())
        } else {
            m.step() == Step::Stop(Outcome::Error(ErrorKind::BinMathOp, m.trace()))
        }),
{
    reveal(VmModel::step);
    reveal(VmModel::local_ptr_step);
    reveal(VmModel::ptr_step);
    match instr(m) {
        Op::LocalPtrAdd(d, p, o) | Op::LocalPtrSub(d, p, o) => {
            if room(m, o, 8) {
                lemma_load_at(m, o, 8);
            }
        },
        Op::PtrAdd(d, a, b) | Op::PtrSub(d, a, b) => {
            if room(m, a, 8) && room(m, b, 8) && room(m, d, 8) {
                lemma_load_at(m, a, 8);
                lemma_load_at(m, b, 8);
                assert forall|v: usize| writes(m, m.store_step(d, #[trigger] v.encoding()), d, v.encoding()) by {
                    v.lemma_decode_encode();
                    lemma_store_writes(m, d, v.encoding());
                }
            }
        },
        _ => {},
    }
}

/// Completing a float instruction writes the result at the address held in
/// the instruction's destination slot (its first slot), changing memory
/// nowhere else, and then runs on from the next instruction.
pub proof fn lemma_complete_float_writes_destination(m: VmModel, result: Seq<u8>)
    requires
        valid(m),
    ensures
        instr(m) matches Op::F64Add(d, _, _) ==> (room(m, d, result.len()) ==> {
            &&& writes(m, m.store_step(d, result), d, result)
            &&& m.complete_float(result) == m.advance(m.store_step(d, result)->Next_0, m.current.locals).run_from()
        }),
        instr(m) matches Op::F64Sub(d, _, _) ==> (room(m, d, result.len()) ==> {
            &&& writes(m, m.store_step(d, result), d, result)
            &&& m.complete_float(result) == m.advance(m.store_step(d, result)->Next_0, m.current.locals).run_from()
        }),
        instr(m) matches Op::F64Mul(d, _, _) ==> (room(m, d, result.len()) ==> {
            &&& writes(m, m.store_step(d, result), d, result)
            &&& m.complete_float(result) == m.advance(m.store_step(d, result)->Next_0, m.current.locals).run_from()
        }),
        instr(m) matches Op::F64Div(d, _, _) ==> (room(m, d, result.len()) ==> {
            &&& writes(m, m.store_step(d, result), d, result)
            &&& m.complete_float(result) == m.advance(m.store_step(d, result)->Next_0, m.current.locals).run_from()
        }),
        instr(m) matches Op::F64Exp(d, _, _) ==> (room(m, d, result.len()) ==> {
            &&& writes(m, m.store_step(d, result), d, result)
            &&& m.complete_float(result) == m.advance(m.store_step(d, result)->Next_0, m.current.locals).run_from()
        }),
        instr(m) matches Op::F64Eq(d, _, _) ==> (room(m, d, result.len()) ==> {
            &&& writes(m, m.store_step(d, result), d, result)
            &&& m.complete_float(result) == m.advance(m.store_step(d, result)->Next_0, m.current.locals).run_from()
        }),
        instr(m) matches Op::F64Gt(d, _, _) ==> (room(m, d, result.len()) ==> {
            &&& writes(m, m.store_step(d, result), d, result)
            &&& m.complete_float(result) == m.advance(m.store_step(d, result)->Next_0, m.current.locals).run_from()
        }),
        instr(m) matches Op::F64Lt(d, _, _) ==> (room(m, d, result.len()) ==> {
            &&& writes(m, m.store_step(d, result), d, result)
            &&& m.complete_float(result) == m.advance(m.store_step(d, result)->Next_0, m.current.locals).run_from()
        }),
        instr(m) matches Op::F64Neg(d, _) ==> (room(m, d, result.len()) ==> {
            &&& writes(m, m.store_step(d, result), d, result)
            &&& m.complete_float(result) == m.advance(m.store_step(d, result)->Next_0, m.current.locals).run_from()
        }),
{
    match instr(m) {
        Op::F64Add(d, _, _) | Op::F64Sub(d, _, _) | Op::F64Mul(d, _, _) | Op::F64Div(d, _, _)
        | Op::F64Exp(d, _, _) | Op::F64Eq(d, _, _) | Op::F64Gt(d, _, _) | Op::F64Lt(d, _, _)
        | Op::F64Neg(d, _) => {
            if room(m, d, result.len()) {
                lemma_store_writes(m, d, result);
                reveal(VmModel::store);
            }
        },
        _ => {},
    }
}


/// `AllocateData(x, size)` appends `size` zero bytes to memory and puts
/// their address, the old length of memory, in slot `x`; `DataToHeap(x,
/// data)` copies the literal's bytes to the address in slot `x`, and fails
/// with `MemoryAccessOutOfRange` when that address lies past the end of
/// memory and with `SetMemoryOutOfRange` when the bytes do not fit;
/// `ReturnLocal(x)` ends the run with the address in slot `x`.
pub proof fn lemma_memory_instructions(m: VmModel)
    requires
        valid(m),
    ensures
        instr(m) matches Op::AllocateData(x, size) ==> (x < m.current.locals.len() && m.memory.len()
            + size <= isize::MAX ==> m.step() == Step::Next(
            m.memory + Seq::new(size as nat, |i: int| 0u8),
            m.current.locals.update(x as int, m.memory.len() as usize),
        )),
        instr(m) matches Op::DataToHeap(x, data) ==> (room(m, x, data@.len()) ==> writes(
            m,
            m.step(),
            x,
            data@,
        )),
        instr(m) matches Op::DataToHeap(x, data) ==> (x < m.current.locals.len()
            && m.current.locals[x as int] > m.memory.len() ==> m.step() == Step::Stop(
            Outcome::Error(ErrorKind::MemoryAccessOutOfRange(m.current.locals[x as int]), m.trace()),
        )),
        instr(m) matches Op::DataToHeap(x, data) ==> (x < m.current.locals.len()
            && m.current.locals[x as int] <= m.memory.len() < m.current.locals[x as int] + data@.len()
            <= usize::MAX ==> m.step() == Step::Stop(
            Outcome::Error(
                ErrorKind::SetMemoryOutOfRange(m.current.locals[x as int], data@.len() as usize),
                m.trace(),
            ),
        )),
        instr(m) matches Op::ReturnLocal(x) ==> (x < m.current.locals.len() && m.frames.len() == 0
            ==> m.step() == Step::Stop(Outcome::Returned(m.current.locals[x as int]))),
{
    reveal(VmModel::step);
    reveal(VmModel::allocate_step);
    reveal(VmModel::data_step);
    reveal(VmModel::return_step);
    match instr(m) {
        Op::DataToHeap(x, data) => {
            if room(m, x, data@.len()) {
                let addr = m.current.locals[x as int];
                assert(m.step() == Step::Next(
                    crate::vm::overwrite(m.memory, addr as int, data@),
                    m.current.locals,
                ));
            }
        },
        _ => {},
    }
}

/// An integer instruction whose operands lie in memory stops on a fault
/// exactly as its arithmetic fails: division or remainder by zero is
/// `DivisionByZero`, and a result outside the type is `ArithmeticOverflow`.
/// An operand whose bytes run past the end of memory is the error
/// `MemoryAccessOutOfRange` with the operand's address, and a destination
/// whose bytes run past the end is `SetMemoryOutOfRange`.
pub proof fn lemma_integer_failures(m: VmModel)
    requires
        valid(m),
    ensures
        instr(m) matches Op::I64Add(d, a, b) ==> (room(m, a, 8) && room(m, b, 8) && !(i64::MIN
            <= i64_at(m, a) + i64_at(m, b) <= i64::MAX) ==> m.step() == Step::Stop(
            Outcome::Fault(Fault::ArithmeticOverflow),
        )),
        instr(m) matches Op::I64Div(d, a, b) ==> (room(m, a, 8) && room(m, b, 8) && i64_at(m, b) == 0
            ==> m.step() == Step::Stop(Outcome::Fault(Fault::DivisionByZero))),
        instr(m) matches Op::I64Mod(d, a, b) ==> (room(m, a, 8) && room(m, b, 8) && i64_at(m, b) == 0
            ==> m.step() == Step::Stop(Outcome::Fault(Fault::DivisionByZero))),
        instr(m) matches Op::OffsetDiv(d, a, b) ==> (room(m, a, 8) && room(m, b, 8) && isize_at(m, b)
            == 0 ==> m.step() == Step::Stop(Outcome::Fault(Fault::DivisionByZero))),
        instr(m) matches Op::I64Add(d, a, b) ==> (a < m.current.locals.len() && m.memory.len()
            < m.current.locals[a as int] + 8 <= usize::MAX ==> m.step() == Step::Stop(
            Outcome::Error(ErrorKind::MemoryAccessOutOfRange(m.current.locals[a as int]), m.trace()),
        )),
        instr(m) matches Op::I64Add(d, a, b) ==> (room(m, a, 8) && room(m, b, 8) && d
            < m.current.locals.len() && m.memory.len() < m.current.locals[d as int] + 8 <= usize::MAX
            && i64::MIN <= i64_at(m, a) + i64_at(m, b) <= i64::MAX ==> m.step() == Step::Stop(
            Outcome::Error(ErrorKind::SetMemoryOutOfRange(m.current.locals[d as int], 8), m.trace()),
        )),
{
    reveal(VmModel::step);
    reveal(VmModel::i64_step);
    reveal(VmModel::offset_step);
    reveal(VmModel::load);
    reveal(VmModel::store);
    match instr(m) {
        Op::I64Add(d, a, b) => {
            if room(m, a, 8) && room(m, b, 8) {
                lemma_load_at(m, a, 8);
                lemma_load_at(m, b, 8);
                let x = <i64 as Byteable<8>>::decoding(at(m, a, 8));
                let y = <i64 as Byteable<8>>::decoding(at(m, b, 8));
                if x.checked_add(y) is Some {
                    x.checked_add(y)->Some_0.lemma_decode_encode();
                }
            }
        },
        Op::I64Div(d, a, b) | Op::I64Mod(d, a, b) | Op::OffsetDiv(d, a, b) => {
            if room(m, a, 8) && room(m, b, 8) {
                lemma_load_at(m, a, 8);
                lemma_load_at(m, b, 8);
            }
        },
        _ => {},
    }
}

/// How a run goes on: it stops at the end of the procedure with
/// `InstrPointerOutOfRange`, stops where an instruction stops (the machine
/// as it was), and otherwise runs on from the machine the instruction leaves,
/// at the next instruction.
pub proof fn lemma_run_from_steps(m: VmModel)
    requires
        m.current.id < m.procs.len(),
        m.instrs().len() <= usize::MAX,
    ensures
        m.current.ip >= m.instrs().len() ==> m.run_from() == (
            m,
            Outcome::Error(ErrorKind::InstrPointerOutOfRange(m.current.ip), m.trace()),
        ),
        m.current.ip < m.instrs().len() ==> (m.step() matches Step::Stop(o) ==> m.run_from() == (m, o)),
        m.current.ip < m.instrs().len() ==> (m.step() matches Step::Next(memory, locals)
            ==> m.run_from() == (VmModel {
            memory,
            current: crate::vm::FrameModel { locals, ip: (m.current.ip + 1) as usize, ..m.current },
            ..m
        }).run_from()),
{
}

} // verus!
