//! Faults: what ends a run before its time.

use vstd::prelude::*;
use crate::instruction::CauchemarVMInstruction;

verus! {

/// Why a run was abandoned. Every fault is fatal: nothing in the language
/// catches one.
#[derive(Debug, Clone, Copy, PartialEq, Eq, Structural)]
pub enum FaultKind {
    /// The program defines no routine named `PROGRAM`.
    MissingEntryRoutine,
    /// A frame names a routine that the routine table does not hold.
    UnknownRoutine,
    /// An operation needs more operands than the value stack holds.
    StackUnderflow,
    /// An operand is there but of the wrong variant.
    TypeMismatch,
    /// The right-hand operand of a division is zero.
    DivisionByZero,
    /// `ASSERT` found `FALSE` on the stack.
    AssertionFailed,
    /// A frame's index lies outside the instruction list of its routine. No
    /// compiled program gets there.
    InvalidIndex,
}

/// A fault together with the place where it arose.
#[derive(Debug, PartialEq, Eq)]
pub struct CauchemarFault {
    /// What went wrong.
    pub kind: FaultKind,
    /// The routine of the frame that was active.
    pub routine: String,
    /// The instruction index of that frame.
    pub index: usize,
    /// The instruction at that index, where the routine is a user routine and
    /// the index lies within it.
    pub instruction: Option<CauchemarVMInstruction>,
}

} // verus!
