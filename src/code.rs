use crate::op::Op;
use vstd::prelude::*;

verus! {

/// A data address: absolute (globals), or relative to the frame base (locals).
#[derive(Debug, PartialEq, Eq, Clone, Copy, Structural)]
pub enum MemAddr {
    Direct(usize),
    Indirect(usize),
}

/// A code address: an instruction index, or the start or end of a named
/// region, resolved when the program is linked.
#[derive(Debug, PartialEq, Eq, Clone, Copy, Structural)]
pub enum CodeAddr {
    Direct(usize),
    NameStart(usize),
    NameEnd(usize),
}

/// An instruction of the stack machine.
#[derive(Debug, PartialEq, Eq, Clone, Copy, Structural)]
pub enum Code {
    Push(MemAddr),
    PushValue(i32),
    Pop(usize),
    PopMov(MemAddr),
    Op(Op),
    Call(CodeAddr, usize),
    Jump(CodeAddr),
    CondJump(CodeAddr),
    Print,
    Ret(usize),
    Exit,
}

} // verus!
