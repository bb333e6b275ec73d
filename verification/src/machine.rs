//! The stack machine as a transition system: states, single steps and runs.

use vstd::prelude::*;
use crate::arith::{apply_operator, Operator};
use crate::fault::FaultKind;
use crate::instruction::Instr;
use crate::native::{native_effect, NativeRoutine};
use crate::stack::{bool_at, without_top, Store};

verus! {

/// One call in progress: a routine and the index of the instruction that it
/// runs next.
pub struct Frame {
    pub routine: Seq<char>,
    pub index: int,
}

/// A routine of the table: built in, or a list of instructions.
pub enum Routine {
    Native(NativeRoutine),
    User(Seq<Instr>),
}

/// The state of the machine: the calls in progress, the active one last, and
/// the store. A machine without frames has halted.
pub struct Machine {
    pub frames: Seq<Frame>,
    pub store: Store,
}

/// What one step makes of a machine.
pub enum Step {
    Next(Machine),
    Fault(FaultKind),
}

/// What a run has come to.
pub enum Run {
    /// The steps allowed were taken and the machine has not halted.
    Running(Machine),
    /// The last frame returned.
    Halted(Store),
    /// A step faulted; the machine is as it was before that step.
    Faulted(FaultKind, Machine),
}

/// What the instruction `instr`, found at `index` of `routine`, makes of the
/// machine whose other frames are `below`.
///
/// The frame is advanced to the next instruction unless the instruction says
/// where to go: a jump replaces the index, a call puts a frame for the callee
/// on top of the advanced frame, a return drops the frame.
pub open spec fn execute(
    instr: Instr,
    routine: Seq<char>,
    index: int,
    below: Seq<Frame>,
    store: Store,
) -> Step {
    let advanced = below.push(Frame { routine, index: index + 1 });
    match instr {
        Instr::Push(v) => Step::Next(
            Machine { frames: advanced, store: Store { stack: store.stack.push(v), ..store } },
        ),
        Instr::Add => arithmetic(Operator::Add, advanced, store),
        Instr::Sub => arithmetic(Operator::Sub, advanced, store),
        Instr::Mul => arithmetic(Operator::Mul, advanced, store),
        Instr::Div => arithmetic(Operator::Div, advanced, store),
        Instr::Jump(target) => Step::Next(
            Machine { frames: below.push(Frame { routine, index: target }), store },
        ),
        Instr::JumpIfFalse(target) => match bool_at(store.stack, 0) {
            Err(k) => Step::Fault(k),
            Ok(b) => Step::Next(
                Machine {
                    frames: if b {
                        advanced
                    } else {
                        below.push(Frame { routine, index: target })
                    },
                    store: Store { stack: without_top(store.stack, 1), ..store },
                },
            ),
        },
        Instr::Call(callee) => Step::Next(
            Machine { frames: advanced.push(Frame { routine: callee, index: 0 }), store },
        ),
        Instr::Return => Step::Next(Machine { frames: below, store }),
        Instr::Nop => Step::Next(Machine { frames: advanced, store }),
    }
}

/// The step of an arithmetic instruction that leaves the frames `frames`.
pub open spec fn arithmetic(op: Operator, frames: Seq<Frame>, store: Store) -> Step {
    match apply_operator(op, store.stack) {
        Err(k) => Step::Fault(k),
        Ok(stack) => Step::Next(Machine { frames, store: Store { stack, ..store } }),
    }
}

/// One step of a machine that has not halted.
///
/// The routine of the active frame is looked up. A built-in routine takes
/// effect at once and its frame is dropped. Of a user routine the instruction
/// at the frame's index is executed.
pub open spec fn step(table: Map<Seq<char>, Routine>, m: Machine) -> Step
    recommends
        m.frames.len() > 0,
{
    let top = m.frames.last();
    let below = m.frames.drop_last();
    if !table.contains_key(top.routine) {
        Step::Fault(FaultKind::UnknownRoutine)
    } else {
        match table[top.routine] {
            Routine::Native(n) => match native_effect(n, m.store) {
                Err(k) => Step::Fault(k),
                Ok(store) => Step::Next(Machine { frames: below, store }),
            },
            Routine::User(code) => if 0 <= top.index < code.len() {
                execute(code[top.index], top.routine, top.index, below, m.store)
            } else {
                Step::Fault(FaultKind::InvalidIndex)
            },
        }
    }
}

/// What a machine comes to within `fuel` steps.
pub open spec fn run(table: Map<Seq<char>, Routine>, m: Machine, fuel: nat) -> Run
    decreases fuel,
{
    if m.frames.len() == 0 {
        Run::Halted(m.store)
    } else if fuel == 0 {
        Run::Running(m)
    } else {
        match step(table, m) {
            Step::Fault(k) => Run::Faulted(k, m),
            Step::Next(next) => run(table, next, (fuel - 1) as nat),
        }
    }
}

/// The machine at the start of a run: one frame at the first instruction of
/// `entry`, nothing on the stack, nothing printed.
pub open spec fn initial(entry: Seq<char>) -> Machine {
    Machine {
        frames: seq![Frame { routine: entry, index: 0 }],
        store: Store { stack: Seq::empty(), output: Seq::empty() },
    }
}

} // verus!
