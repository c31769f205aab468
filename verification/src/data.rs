//! The machine's program representation, its data literals and its errors.

use std::rc::Rc;
use vstd::prelude::*;
use vstd::string::*;
use crate::byteable::{word_bytes, Byteable};

verus! {

/// Number of bytes of an encoded 64-bit float.
pub const F64_SIZE: usize = 8;
/// Number of bytes of an encoded `i64`.
pub const I64_SIZE: usize = 8;
/// Number of bytes of an encoded memory address (`usize`).
pub const PTR_SIZE: usize = 8;
/// Number of bytes of an encoded signed offset (`isize`).
pub const OFFSET_SIZE: usize = 8;
/// Number of bytes of an encoded boolean.
pub const BOOL_SIZE: usize = 1;

/// A literal value, as the bytes that represent it in memory.
#[derive(Debug)]
pub struct Data(pub Vec<u8>);

impl View for Data {
    type V = Seq<u8>;

    open spec fn view(&self) -> Seq<u8> {
        self.0@
    }
}

/// One instruction. `ID` names a local slot (or a procedure); each local slot
/// holds a memory address.
#[derive(Debug)]
pub enum Op<ID> {
    Jump(ID),
    BranchTrue(ID, ID),
    AllocateData(ID, usize),
    Coroutine(ID, Vec<ID>),
    Resume(ID),
    Yield(ID),
    DataToHeap(ID, Data),
    PtrToHeap(ID, ID),
    PtrFromHeap(ID, ID),
    CopyData(ID, ID, usize),
    ReturnLocal(ID),
    SetLocalFromReturn(ID),
    SetLocalFromLocal(ID, ID),
    SetLocalFromGlobal(ID, ID),
    SetLocalFromProc(ID, ID),
    SetGlobalFromLocal(ID, ID),
    Call(ID, Vec<ID>),
    DynCall(ID, Vec<ID>),
    LocalPtrAdd(ID, ID, ID),
    LocalPtrSub(ID, ID, ID),
    PtrAdd(ID, ID, ID),
    PtrSub(ID, ID, ID),
    OffsetAdd(ID, ID, ID),
    OffsetSub(ID, ID, ID),
    OffsetMul(ID, ID, ID),
    OffsetDiv(ID, ID, ID),
    OffsetNeg(ID, ID),
    OffsetEq(ID, ID, ID),
    OffsetGt(ID, ID, ID),
    OffsetLt(ID, ID, ID),
    F64Add(ID, ID, ID),
    F64Sub(ID, ID, ID),
    F64Mul(ID, ID, ID),
    F64Div(ID, ID, ID),
    F64Exp(ID, ID, ID),
    F64Neg(ID, ID),
    F64Eq(ID, ID, ID),
    F64Gt(ID, ID, ID),
    F64Lt(ID, ID, ID),
    I64Add(ID, ID, ID),
    I64Sub(ID, ID, ID),
    I64Mul(ID, ID, ID),
    I64Div(ID, ID, ID),
    I64Mod(ID, ID, ID),
    I64Neg(ID, ID),
    I64Eq(ID, ID, ID),
    I64Gt(ID, ID, ID),
    I64Lt(ID, ID, ID),
    LNot(ID, ID),
    LAnd(ID, ID, ID),
    LOr(ID, ID, ID),
    LXor(ID, ID, ID),
    LEq(ID, ID, ID),
    Nop,
}

/// Copies the bytes of an encoded value into a fresh vector.
fn bytes_of<const N: usize>(bytes: [u8; N]) -> (out: Vec<u8>)
    ensures
        out@ == bytes@,
{
    let mut out: Vec<u8> = Vec::new();
    let mut i: usize = 0;
    while i < N
        invariant
            i <= N,
            bytes@.len() == N,
            out@ == bytes@.subrange(0, i as int),
        decreases N - i,
    {
        out.push(bytes[i]);
        i = i + 1;
        assert(out@ =~= bytes@.subrange(0, i as int));
    }
    assert(out@ =~= bytes@);
    out
}

/// The literal holding the 64-bit integer `x`.
pub fn int64(x: i64) -> (out: Data)
    ensures
        out@ == x.encoding(),
        out@ == word_bytes(x as u64),
{
    Data(bytes_of(x.to()))
}

/// The literal holding the boolean `x`: one byte, 1 for true and 0 for false.
pub fn bool(x: bool) -> (out: Data)
    ensures
        out@ == x.encoding(),
        out@ == seq![if x { 1u8 } else { 0u8 }],
{
    Data(bytes_of(x.to()))
}

/// The literal holding the signed offset `x`.
pub fn offset(x: isize) -> (out: Data)
    ensures
        out@ == x.encoding(),
        out@ == word_bytes(x as u64),
{
    Data(bytes_of(x.to()))
}

/// A procedure whose instructions name their slots and callees.
#[derive(Debug)]
pub struct Proc {
    pub name: Rc<str>,
    pub instrs: Vec<Op<Rc<str>>>,
}

/// A procedure whose slots are numbered: slot `i` of the running procedure is
/// entry `i` of its frame, which has `frame_size` entries.
#[derive(Debug)]
pub struct CompiledProc {
    pub name: Rc<str>,
    pub instrs: Vec<Op<usize>>,
    pub slot_names: Vec<Rc<str>>,
    pub frame_size: usize,
}

/// The procedures being run when an error came, innermost last, each with
/// its instruction index.
pub type StackTrace = Vec<(Rc<str>, usize)>;

/// What went wrong, without the stack trace.
pub enum ErrorKind {
    UnknownProcId(usize),
    InstrPointerOutOfRange(usize),
    MemoryAccessOutOfRange(usize),
    SetMemoryOutOfRange(usize, usize),
    BinMathOp,
}

/// An error the machine reports, with the stack trace at the failing instruction.
#[derive(Debug)]
pub enum VmError {
    UnknownProcId(usize, StackTrace),
    InstrPointerOutOfRange(usize, StackTrace),
    MemoryAccessOutOfRange(usize, StackTrace),
    SetMemoryOutOfRange(usize, usize, StackTrace),
    BinMathOp(StackTrace),
}

impl VmError {
    /// What went wrong.
    pub open spec fn kind(self) -> ErrorKind {
        match self {
            VmError::UnknownProcId(id, _) => ErrorKind::UnknownProcId(id),
            VmError::InstrPointerOutOfRange(ip, _) => ErrorKind::InstrPointerOutOfRange(ip),
            VmError::MemoryAccessOutOfRange(addr, _) => ErrorKind::MemoryAccessOutOfRange(addr),
            VmError::SetMemoryOutOfRange(addr, len, _) => ErrorKind::SetMemoryOutOfRange(addr, len),
            VmError::BinMathOp(_) => ErrorKind::BinMathOp,
        }
    }

    /// The stack trace that came with the error.
    pub open spec fn trace(self) -> Seq<(Rc<str>, usize)> {
        match self {
            VmError::UnknownProcId(_, t) => t@,
            VmError::InstrPointerOutOfRange(_, t) => t@,
            VmError::MemoryAccessOutOfRange(_, t) => t@,
            VmError::SetMemoryOutOfRange(_, _, t) => t@,
            VmError::BinMathOp(t) => t@,
        }
    }

    /// The error of kind `kind` with the stack trace `trace`.
    pub(crate) fn new(kind: ErrorKind, trace: StackTrace) -> (out: VmError)
        ensures
            out.kind() == kind,
            out.trace() == trace@,
    {
        match kind {
            ErrorKind::UnknownProcId(id) => VmError::UnknownProcId(id, trace),
            ErrorKind::InstrPointerOutOfRange(ip) => VmError::InstrPointerOutOfRange(ip, trace),
            ErrorKind::MemoryAccessOutOfRange(addr) => VmError::MemoryAccessOutOfRange(addr, trace),
            ErrorKind::SetMemoryOutOfRange(addr, len) => VmError::SetMemoryOutOfRange(addr, len, trace),
            ErrorKind::BinMathOp => VmError::BinMathOp(trace),
        }
    }
}


/// The decimal digit `d`.
pub open spec fn digit(d: nat) -> char {
    ('0' as nat + d) as char
}

/// The decimal numeral of `n`, without leading zeros.
pub open spec fn decimal(n: nat) -> Seq<char>
    decreases n,
{
    if n < 10 {
        seq![digit(n)]
    } else {
        decimal(n / 10).push(digit(n % 10))
    }
}

/// The characters of a procedure name.
pub open spec fn name_text(name: Rc<str>) -> Seq<char> {
    (*name)@
}

/// One line of a rendered stack trace.
pub open spec fn frame_line(entry: (Rc<str>, usize)) -> Seq<char> {
    "    "@ + name_text(entry.0) + " at index "@ + decimal(entry.1 as nat) + "\n"@
}

/// A rendered stack trace: one line per entry.
pub open spec fn trace_text(trace: Seq<(Rc<str>, usize)>) -> Seq<char>
    decreases trace.len(),
{
    if trace.len() == 0 {
        Seq::empty()
    } else {
        trace_text(trace.drop_last()) + frame_line(trace.last())
    }
}

/// `usize`'s `to_string`: the decimal numeral of `n`.
#[verifier::external_body]
fn usize_to_string(n: usize) -> (out: String)
    ensures
        out@ == decimal(n as nat),
{
    n.to_string()
}

/// `Rc<str>`'s `as_ref`: the name's characters.
#[verifier::external_body]
fn name_as_str(name: &Rc<str>) -> (out: &str)
    ensures
        out@ == name_text(*name),
{
    name.as_ref()
}

impl VmError {
    /// The error's message: what went wrong on a first line, then the stack trace.
    pub open spec fn text(self) -> Seq<char> {
        let head = match self {
            VmError::UnknownProcId(id, _) => "encountered unknown proc id: "@ + decimal(id as nat),
            VmError::InstrPointerOutOfRange(ip, _) => "encountered instruction pointer past proc length: "@
                + decimal(ip as nat),
            VmError::MemoryAccessOutOfRange(addr, _) => "memory access out of range: "@ + decimal(addr as nat),
            VmError::SetMemoryOutOfRange(addr, len, _) => "set memory out of range: "@ + decimal(addr as nat)
                + " of length: "@ + decimal(len as nat),
            VmError::BinMathOp(_) => "error with binary operator"@,
        };
        head + "\n"@ + trace_text(self.trace())
    }

    /// Renders the error: what went wrong on a first line, then one line per
    /// stack trace entry.
    pub fn message(&self) -> (out: String)
        ensures
            out@ == self.text(),
    {
        let mut out = String::new();
        let trace = match self {
            VmError::UnknownProcId(id, t) => {
                out.append("encountered unknown proc id: ");
                out.append(usize_to_string(*id).as_str());
                t
            },
            VmError::InstrPointerOutOfRange(ip, t) => {
                out.append("encountered instruction pointer past proc length: ");
                out.append(usize_to_string(*ip).as_str());
                t
            },
            VmError::MemoryAccessOutOfRange(addr, t) => {
                out.append("memory access out of range: ");
                out.append(usize_to_string(*addr).as_str());
                t
            },
            VmError::SetMemoryOutOfRange(addr, len, t) => {
                out.append("set memory out of range: ");
                out.append(usize_to_string(*addr).as_str());
                out.append(" of length: ");
                out.append(usize_to_string(*len).as_str());
                t
            },
            VmError::BinMathOp(t) => {
                out.append("error with binary operator");
                t
            },
        };
        out.append("\n");
        let ghost head = out@;
        let mut i: usize = 0;
        while i < trace.len()
            invariant
                i <= trace@.len(),
                out@ == head + trace_text(trace@.subrange(0, i as int)),
            decreases trace@.len() - i,
        {
            let (name, index) = &trace[i];
            out.append("    ");
            out.append(name_as_str(name));
            out.append(" at index ");
            out.append(usize_to_string(*index).as_str());
            out.append("\n");
            assert(trace@.subrange(0, i + 1).drop_last() =~= trace@.subrange(0, i as int));
            i = i + 1;
        }
        assert(trace@.subrange(0, i as int) =~= trace@);
        out
    }
}

} // verus!
