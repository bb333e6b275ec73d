//! Bytecode instructions: what the compiler puts out and the machine executes.

use vstd::prelude::*;
use crate::value::{CauchemarVMValue, Value};

verus! {

/// A bytecode instruction as the specifications see it. Jump targets are
/// absolute positions in the instruction list of the routine that holds the
/// jump.
pub enum Instr {
    Push(Value),
    Call(Seq<char>),
    Jump(int),
    JumpIfFalse(int),
    Add,
    Sub,
    Mul,
    Div,
    Return,
    Nop,
}

/// A bytecode instruction.
#[derive(Debug, PartialEq, Eq)]
pub enum CauchemarVMInstruction {
    Push(CauchemarVMValue),
    Call(String),
    Jump(usize),
    JumpIfFalse(usize),
    Add,
    Sub,
    Mul,
    Div,
    Return,
    Nop,
}

impl View for CauchemarVMInstruction {
    type V = Instr;

    open spec fn view(&self) -> Instr {
        match self {
            CauchemarVMInstruction::Push(v) => Instr::Push(v@),
            CauchemarVMInstruction::Call(name) => Instr::Call(name@),
            CauchemarVMInstruction::Jump(target) => Instr::Jump(*target as int),
            CauchemarVMInstruction::JumpIfFalse(target) => Instr::JumpIfFalse(*target as int),
            CauchemarVMInstruction::Add => Instr::Add,
            CauchemarVMInstruction::Sub => Instr::Sub,
            CauchemarVMInstruction::Mul => Instr::Mul,
            CauchemarVMInstruction::Div => Instr::Div,
            CauchemarVMInstruction::Return => Instr::Return,
            CauchemarVMInstruction::Nop => Instr::Nop,
        }
    }
}

impl Clone for CauchemarVMInstruction {
    fn clone(&self) -> (r: Self)
        ensures
            r@ == self@,
    {
        match self {
            CauchemarVMInstruction::Push(v) => CauchemarVMInstruction::Push(v.clone()),
            CauchemarVMInstruction::Call(name) => CauchemarVMInstruction::Call(name.clone()),
            CauchemarVMInstruction::Jump(target) => CauchemarVMInstruction::Jump(*target),
            CauchemarVMInstruction::JumpIfFalse(target) => CauchemarVMInstruction::JumpIfFalse(
                *target,
            ),
            CauchemarVMInstruction::Add => CauchemarVMInstruction::Add,
            CauchemarVMInstruction::Sub => CauchemarVMInstruction::Sub,
            CauchemarVMInstruction::Mul => CauchemarVMInstruction::Mul,
            CauchemarVMInstruction::Div => CauchemarVMInstruction::Div,
            CauchemarVMInstruction::Return => CauchemarVMInstruction::Return,
            CauchemarVMInstruction::Nop => CauchemarVMInstruction::Nop,
        }
    }
}

/// The instructions of a list, each by its view.
pub open spec fn code_of(v: Seq<CauchemarVMInstruction>) -> Seq<Instr> {
    Seq::new(v.len(), |i: int| v[i]@)
}

} // verus!
