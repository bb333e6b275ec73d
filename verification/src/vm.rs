//! The stack machine itself: it executes bytecode step by step, with an
//! explicit stack of frames in place of the host's call stack.

use vstd::prelude::*;
use crate::arith::{difference, product, quotient, sum, Operator};
use crate::fault::{CauchemarFault, FaultKind};
use crate::instruction::{code_of, CauchemarVMInstruction, Instr};
use crate::machine::{execute, run, step, Frame, Machine, Routine, Run, Step};
use crate::native::{native_effect, NativeRoutine};
use crate::stack::{
    bool_at, discard, number_at, peek_bool, peek_number, peek_value, pop_value, push_value,
    without_top, Store,
};
use crate::table::NameTable;
use crate::value::{values_of, CauchemarVMValue, Value};

verus! {

/// One call in progress: a routine and the index of the instruction that it
/// runs next.
#[derive(Debug, PartialEq, Eq)]
pub struct CauchemarFrame {
    pub routine: String,
    pub index: usize,
}

impl View for CauchemarFrame {
    type V = Frame;

    open spec fn view(&self) -> Frame {
        Frame { routine: self.routine@, index: self.index as int }
    }
}

/// The frames of a list, each by its view.
pub open spec fn frames_of(v: Seq<CauchemarFrame>) -> Seq<Frame> {
    Seq::new(v.len(), |i: int| v[i]@)
}

/// A routine of the table: built in, or compiled to instructions.
#[derive(Debug, PartialEq, Eq)]
pub enum CauchemarVMRoutine {
    Native(NativeRoutine),
    User(Vec<CauchemarVMInstruction>),
}

impl View for CauchemarVMRoutine {
    type V = Routine;

    open spec fn view(&self) -> Routine {
        match self {
            CauchemarVMRoutine::Native(n) => Routine::Native(*n),
            CauchemarVMRoutine::User(code) => Routine::User(code_of(code@)),
        }
    }
}

/// The stack machine: the calls in progress (the active one last), the
/// operand stack (the top last), the routine table, and what `PRINT` has
/// emitted so far (the oldest value first).
#[derive(Debug, PartialEq, Eq)]
pub struct CauchemarVM {
    pub ip: Vec<CauchemarFrame>,
    pub stack: Vec<CauchemarVMValue>,
    pub routines: NameTable<CauchemarVMRoutine>,
    pub output: Vec<CauchemarVMValue>,
}

impl View for CauchemarVM {
    type V = Machine;

    open spec fn view(&self) -> Machine {
        Machine {
            frames: frames_of(self.ip@),
            store: Store { stack: values_of(self.stack@), output: values_of(self.output@) },
        }
    }
}

/// Whether a run goes on.
#[derive(Debug, Clone, Copy, PartialEq, Eq, Structural)]
pub enum CauchemarStatus {
    /// The machine has frames left.
    Running,
    /// The last frame has returned.
    Halted,
}

/// The instruction that a frame is about to execute, where its routine is a
/// user routine and its index lies within it.
pub open spec fn instruction_at(table: Map<Seq<char>, Routine>, frame: Frame) -> Option<Instr> {
    if table.contains_key(frame.routine) {
        match table[frame.routine] {
            Routine::User(code) => if 0 <= frame.index < code.len() {
                Some(code[frame.index])
            } else {
                None
            },
            Routine::Native(_) => None,
        }
    } else {
        None
    }
}

/// Whether `fault` is the fault of kind `kind` that arose at the active frame
/// of `m`.
pub open spec fn describes(
    fault: CauchemarFault,
    kind: FaultKind,
    table: Map<Seq<char>, Routine>,
    m: Machine,
) -> bool {
    &&& fault.kind == kind
    &&& fault.routine@ == m.frames.last().routine
    &&& fault.index == m.frames.last().index
    &&& match fault.instruction {
        Some(i) => instruction_at(table, m.frames.last()) == Some(i@),
        None => instruction_at(table, m.frames.last()) is None,
    }
}

/// What the active frame is about to do.
#[derive(Debug, PartialEq, Eq)]
pub enum Fetched {
    Native(NativeRoutine),
    Instruction(CauchemarVMInstruction),
}

impl CauchemarVM {
    /// The routine table as the specifications see it.
    pub open spec fn table(&self) -> Map<Seq<char>, Routine> {
        self.routines.map().map_values(|r: CauchemarVMRoutine| r@)
    }

    /// Whether no frame is left.
    pub fn halted(&self) -> (r: bool)
        ensures
            r == (self@.frames.len() == 0),
    {
        self.ip.len() == 0
    }

    /// What is left on the stack, the topmost value first: what a run reports
    /// at halt if the program has not used up what it pushed.
    pub fn residue(&self) -> (r: Vec<CauchemarVMValue>)
        ensures
            values_of(r@) == self@.store.stack.reverse(),
    {
        let mut r: Vec<CauchemarVMValue> = Vec::new();
        let mut i: usize = self.stack.len();
        while i > 0
            invariant
                i <= self.stack@.len(),
                r@.len() == self.stack@.len() - i,
                forall|j: int|
                    0 <= j < r@.len() ==> (#[trigger] r@[j])@ == self.stack@[self.stack@.len() - 1
                        - j]@,
            decreases i,
        {
            i = i - 1;
            r.push(self.stack[i].clone());
        }
        assert(values_of(r@) =~= self@.store.stack.reverse());
        r
    }

    /// Looks up what the active frame is about to do.
    pub fn fetch(&self) -> (r: Result<Fetched, FaultKind>)
        requires
            self.ip@.len() > 0,
        ensures
            ({
                let top = self@.frames.last();
                let table = self.table();
                match r {
                    Err(k) => if table.contains_key(top.routine) {
                        k == FaultKind::InvalidIndex && instruction_at(table, top) is None
                            && table[top.routine] is User
                    } else {
                        k == FaultKind::UnknownRoutine
                    },
                    Ok(Fetched::Native(n)) => table.contains_key(top.routine)
                        && table[top.routine] == Routine::Native(n),
                    Ok(Fetched::Instruction(i)) => instruction_at(table, top) == Some(i@)
                        && top.index < usize::MAX,
                }
            }),
    {
        let top = &self.ip[self.ip.len() - 1];
        match self.routines.get(&top.routine) {
            None => Err(FaultKind::UnknownRoutine),
            Some(CauchemarVMRoutine::Native(n)) => Ok(Fetched::Native(*n)),
            Some(CauchemarVMRoutine::User(code)) => {
                if top.index < code.len() {
                    Ok(Fetched::Instruction(code[top.index].clone()))
                } else {
                    Err(FaultKind::InvalidIndex)
                }
            },
        }
    }
}

/// Replaces the two topmost values of the stack, which must be numbers, by
/// what `f` makes of them: `f(left, right)`, where `right` is the topmost
/// value and `left` the one below it.
///
/// The topmost value is looked at first. Where an operand is missing or no
/// number, or where `f` reports a fault, that fault is returned and the
/// machine is left as it was.
pub fn binop<F>(vm: &mut CauchemarVM, f: F) -> (r: Result<(), FaultKind>) where
    F: Fn(i32, i32) -> Result<i32, FaultKind>,

    requires
        forall|left: i32, right: i32|
            number_at(values_of(old(vm).stack@), 0) == Ok::<i32, FaultKind>(right) && number_at(
                values_of(old(vm).stack@),
                1,
            ) == Ok::<i32, FaultKind>(left) ==> f.requires((left, right)),
    ensures
        final(vm).ip == old(vm).ip,
        final(vm).routines == old(vm).routines,
        final(vm).output == old(vm).output,
        ({
            let before = values_of(old(vm).stack@);
            let after = values_of(final(vm).stack@);
            match number_at(before, 0) {
                Err(k) => r == Err::<(), FaultKind>(k) && after == before,
                Ok(right) => match number_at(before, 1) {
                    Err(k) => r == Err::<(), FaultKind>(k) && after == before,
                    Ok(left) => match r {
                        Err(k) => f.ensures((left, right), Err(k)) && after == before,
                        Ok(()) => exists|v: i32|
                            #![auto]
                            f.ensures((left, right), Ok(v)) && after == without_top(
                                before,
                                2,
                            ).push(Value::Number(v)),
                    },
                },
            }
        }),
{
    let right = match peek_number(&vm.stack, 0) {
        Ok(n) => n,
        Err(k) => {
            return Err(k);
        },
    };
    let left = match peek_number(&vm.stack, 1) {
        Ok(n) => n,
        Err(k) => {
            return Err(k);
        },
    };
    match f(left, right) {
        Ok(v) => {
            discard(&mut vm.stack, 2);
            push_value(&mut vm.stack, CauchemarVMValue::Number(v));
            Ok(())
        },
        Err(k) => Err(k),
    }
}

/// Whether `left` is greater than `right`.
pub fn greater_than(left: i32, right: i32) -> (r: bool)
    ensures
        r == (left > right),
{
    left > right
}

/// Whether `left` is greater than or equal to `right`.
pub fn greater_equal(left: i32, right: i32) -> (r: bool)
    ensures
        r == (left >= right),
{
    left >= right
}

/// Whether `left` is less than `right`.
pub fn less_than(left: i32, right: i32) -> (r: bool)
    ensures
        r == (left < right),
{
    left < right
}

/// Whether `left` is less than or equal to `right`.
pub fn less_equal(left: i32, right: i32) -> (r: bool)
    ensures
        r == (left <= right),
{
    left <= right
}

/// Replaces the two topmost values of the stack, which must be numbers, by
/// the boolean that `f` makes of them: `f(left, right)`, where `right` is the
/// topmost value and `left` the one below it.
///
/// The topmost value is looked at first. Where an operand is missing or no
/// number, that fault is returned and the machine is left as it was.
pub fn number_comparison<F>(vm: &mut CauchemarVM, f: F) -> (r: Result<(), FaultKind>) where
    F: Fn(i32, i32) -> bool,

    requires
        forall|left: i32, right: i32|
            number_at(values_of(old(vm).stack@), 0) == Ok::<i32, FaultKind>(right) && number_at(
                values_of(old(vm).stack@),
                1,
            ) == Ok::<i32, FaultKind>(left) ==> f.requires((left, right)),
    ensures
        final(vm).ip == old(vm).ip,
        final(vm).routines == old(vm).routines,
        final(vm).output == old(vm).output,
        ({
            let before = values_of(old(vm).stack@);
            let after = values_of(final(vm).stack@);
            match number_at(before, 0) {
                Err(k) => r == Err::<(), FaultKind>(k) && after == before,
                Ok(right) => match number_at(before, 1) {
                    Err(k) => r == Err::<(), FaultKind>(k) && after == before,
                    Ok(left) => r is Ok && exists|v: bool|
                        #![auto]
                        f.ensures((left, right), v) && after == without_top(before, 2).push(
                            Value::Bool(v),
                        ),
                },
            }
        }),
{
    let right = match peek_number(&vm.stack, 0) {
        Ok(n) => n,
        Err(k) => {
            return Err(k);
        },
    };
    let left = match peek_number(&vm.stack, 1) {
        Ok(n) => n,
        Err(k) => {
            return Err(k);
        },
    };
    let v = f(left, right);
    discard(&mut vm.stack, 2);
    push_value(&mut vm.stack, CauchemarVMValue::Bool(v));
    Ok(())
}

/// Replaces the two topmost values of the stack, which must be booleans, by
/// their disjunction, or by their conjunction where `either` is false.
///
/// The topmost value is looked at first. Where an operand is missing or no
/// boolean, that fault is returned and the machine is left as it was.
pub fn connective(vm: &mut CauchemarVM, either: bool) -> (r: Result<(), FaultKind>)
    ensures
        final(vm).ip == old(vm).ip,
        final(vm).routines == old(vm).routines,
        final(vm).output == old(vm).output,
        ({
            let before = values_of(old(vm).stack@);
            let after = values_of(final(vm).stack@);
            match bool_at(before, 0) {
                Err(k) => r == Err::<(), FaultKind>(k) && after == before,
                Ok(a) => match bool_at(before, 1) {
                    Err(k) => r == Err::<(), FaultKind>(k) && after == before,
                    Ok(b) => r is Ok && after == without_top(before, 2).push(
                        Value::Bool(
                            if either {
                                a || b
                            } else {
                                a && b
                            },
                        ),
                    ),
                },
            }
        }),
{
    let a = match peek_bool(&vm.stack, 0) {
        Ok(b) => b,
        Err(k) => {
            return Err(k);
        },
    };
    let b = match peek_bool(&vm.stack, 1) {
        Ok(b) => b,
        Err(k) => {
            return Err(k);
        },
    };
    discard(&mut vm.stack, 2);
    push_value(&mut vm.stack, CauchemarVMValue::Bool(if either { a || b } else { a && b }));
    Ok(())
}

impl NativeRoutine {
    /// Lets the routine take effect on the machine's stack and output.
    ///
    /// On a fault the machine is left as it was.
    pub fn run(self, vm: &mut CauchemarVM) -> (r: Result<(), FaultKind>)
        ensures
            final(vm).ip == old(vm).ip,
            final(vm).routines == old(vm).routines,
            match native_effect(self, old(vm)@.store) {
                Err(k) => r == Err::<(), FaultKind>(k) && final(vm)@ == old(vm)@,
                Ok(store) => r is Ok && final(vm)@.store == store,
            },
    {
        let ghost before = values_of(vm.stack@);
        match self {
            NativeRoutine::Print => {
                if vm.stack.len() == 0 {
                    return Err(FaultKind::StackUnderflow);
                }
                let v = pop_value(&mut vm.stack);
                push_value(&mut vm.output, v);
            },
            NativeRoutine::Drop => {
                if vm.stack.len() == 0 {
                    return Err(FaultKind::StackUnderflow);
                }
                discard(&mut vm.stack, 1);
            },
            NativeRoutine::Dup => {
                let value = match peek_value(&vm.stack, 0) {
                    Ok(v) => v.clone(),
                    Err(k) => {
                        return Err(k);
                    },
                };
                push_value(&mut vm.stack, value);
            },
            NativeRoutine::Swap => {
                if vm.stack.len() < 2 {
                    return Err(FaultKind::StackUnderflow);
                }
                let a = pop_value(&mut vm.stack);
                let b = pop_value(&mut vm.stack);
                push_value(&mut vm.stack, a);
                push_value(&mut vm.stack, b);
                assert(without_top(without_top(before, 1), 1) =~= without_top(before, 2));
            },
            NativeRoutine::Rot => {
                if vm.stack.len() < 3 {
                    return Err(FaultKind::StackUnderflow);
                }
                let a = pop_value(&mut vm.stack);
                let b = pop_value(&mut vm.stack);
                let c = pop_value(&mut vm.stack);
                push_value(&mut vm.stack, b);
                push_value(&mut vm.stack, a);
                push_value(&mut vm.stack, c);
                assert(without_top(without_top(before, 1), 1) =~= without_top(before, 2));
                assert(without_top(without_top(before, 2), 1) =~= without_top(before, 3));
            },
            NativeRoutine::Over => {
                if vm.stack.len() < 2 {
                    return Err(FaultKind::StackUnderflow);
                }
                let a = pop_value(&mut vm.stack);
                let b = pop_value(&mut vm.stack);
                let again = b.clone();
                push_value(&mut vm.stack, b);
                push_value(&mut vm.stack, a);
                push_value(&mut vm.stack, again);
                assert(without_top(without_top(before, 1), 1) =~= without_top(before, 2));
            },
            NativeRoutine::Equals => {
                if vm.stack.len() < 2 {
                    return Err(FaultKind::StackUnderflow);
                }
                let a = pop_value(&mut vm.stack);
                let b = pop_value(&mut vm.stack);
                push_value(&mut vm.stack, CauchemarVMValue::Bool(a.same_as(&b)));
                assert(without_top(without_top(before, 1), 1) =~= without_top(before, 2));
            },
            NativeRoutine::Not => {
                let b = match peek_bool(&vm.stack, 0) {
                    Ok(b) => b,
                    Err(k) => {
                        return Err(k);
                    },
                };
                discard(&mut vm.stack, 1);
                push_value(&mut vm.stack, CauchemarVMValue::Bool(!b));
            },
            NativeRoutine::Or => {
                return connective(vm, true);
            },
            NativeRoutine::And => {
                return connective(vm, false);
            },
            NativeRoutine::GreaterThan => {
                return number_comparison(vm, greater_than);
            },
            NativeRoutine::GreaterEqual => {
                return number_comparison(vm, greater_equal);
            },
            NativeRoutine::LessThan => {
                return number_comparison(vm, less_than);
            },
            NativeRoutine::LessEqual => {
                return number_comparison(vm, less_equal);
            },
            NativeRoutine::Assert => {
                let value = match peek_bool(&vm.stack, 0) {
                    Ok(b) => b,
                    Err(k) => {
                        return Err(k);
                    },
                };
                if !value {
                    return Err(FaultKind::AssertionFailed);
                }
                discard(&mut vm.stack, 1);
            },
        }
        Ok(())
    }
}

/// Dropping the active frame drops its view.
proof fn lemma_frames_of_prefix(v: Seq<CauchemarFrame>, len: int)
    requires
        0 <= len <= v.len(),
    ensures
        frames_of(v.subrange(0, len)) == frames_of(v).subrange(0, len),
{
    assert(frames_of(v.subrange(0, len)) =~= frames_of(v).subrange(0, len));
}

/// Pushing a frame pushes its view.
proof fn lemma_frames_of_push(v: Seq<CauchemarFrame>, x: CauchemarFrame)
    ensures
        frames_of(v.push(x)) == frames_of(v).push(x@),
{
    assert(frames_of(v.push(x)) =~= frames_of(v).push(x@));
}

impl CauchemarVM {
    /// Drops the active frame.
    fn leave(&mut self) -> (frame: CauchemarFrame)
        requires
            old(self).ip@.len() > 0,
        ensures
            final(self)@.frames == old(self)@.frames.drop_last(),
            frame@ == old(self)@.frames.last(),
            final(self).stack == old(self).stack,
            final(self).routines == old(self).routines,
            final(self).output == old(self).output,
    {
        proof {
            lemma_frames_of_prefix(self.ip@, self.ip@.len() - 1);
        }
        self.ip.pop().unwrap()
    }

    /// Puts a frame on top.
    fn enter(&mut self, routine: String, index: usize)
        ensures
            final(self)@.frames == old(self)@.frames.push(
                Frame { routine: routine@, index: index as int },
            ),
            final(self).stack == old(self).stack,
            final(self).routines == old(self).routines,
            final(self).output == old(self).output,
    {
        let frame = CauchemarFrame { routine, index };
        proof {
            lemma_frames_of_push(self.ip@, frame);
        }
        self.ip.push(frame);
    }

    /// Sends the active frame to the instruction at `index`.
    fn go_to(&mut self, index: usize)
        requires
            old(self).ip@.len() > 0,
        ensures
            final(self)@.frames == old(self)@.frames.drop_last().push(
                Frame { routine: old(self)@.frames.last().routine, index: index as int },
            ),
            final(self).stack == old(self).stack,
            final(self).routines == old(self).routines,
            final(self).output == old(self).output,
    {
        let frame = self.leave();
        self.enter(frame.routine, index);
    }

    /// The fault of kind `kind` at the active frame, whose instruction is
    /// `instruction`.
    fn fault(&self, kind: FaultKind, instruction: Option<CauchemarVMInstruction>) -> (r:
        CauchemarFault)
        requires
            self.ip@.len() > 0,
            match instruction {
                Some(i) => instruction_at(self.table(), self@.frames.last()) == Some(i@),
                None => instruction_at(self.table(), self@.frames.last()) is None,
            },
        ensures
            describes(r, kind, self.table(), self@),
    {
        let top = &self.ip[self.ip.len() - 1];
        CauchemarFault { kind, routine: top.routine.clone(), index: top.index, instruction }
    }

    /// Takes one step: looks up the routine of the active frame and lets a
    /// built-in routine take effect, or executes the instruction that the
    /// frame points at.
    ///
    /// On a fault the machine is left as it was, and the fault names the
    /// active frame and its instruction.
    pub fn step(&mut self) -> (r: Result<(), CauchemarFault>)
        requires
            old(self).ip@.len() > 0,
        ensures
            final(self).routines == old(self).routines,
            match step(old(self).table(), old(self)@) {
                Step::Next(m) => r is Ok && final(self)@ == m,
                Step::Fault(k) => r is Err && describes(
                    r->Err_0,
                    k,
                    old(self).table(),
                    old(self)@,
                ) && final(self)@ == old(self)@,
            },
    {
        let ghost table = self.table();
        let ghost before = self@;
        let index = self.ip[self.ip.len() - 1].index;
        match self.fetch() {
            Err(k) => Err(self.fault(k, None)),
            Ok(Fetched::Native(n)) => {
                match n.run(self) {
                    Err(k) => Err(self.fault(k, None)),
                    Ok(()) => {
                        self.leave();
                        Ok(())
                    },
                }
            },
            Ok(Fetched::Instruction(instruction)) => {
                match instruction {
                    CauchemarVMInstruction::Push(v) => {
                        push_value(&mut self.stack, v);
                        self.go_to(index + 1);
                        Ok(())
                    },
                    CauchemarVMInstruction::Add => self.arithmetic(Operator::Add, instruction),
                    CauchemarVMInstruction::Sub => self.arithmetic(Operator::Sub, instruction),
                    CauchemarVMInstruction::Mul => self.arithmetic(Operator::Mul, instruction),
                    CauchemarVMInstruction::Div => self.arithmetic(Operator::Div, instruction),
                    CauchemarVMInstruction::Jump(pos) => {
                        self.go_to(pos);
                        Ok(())
                    },
                    CauchemarVMInstruction::JumpIfFalse(pos) => {
                        match peek_bool(&self.stack, 0) {
                            Err(k) => Err(self.fault(k, Some(instruction))),
                            Ok(b) => {
                                discard(&mut self.stack, 1);
                                if b {
                                    self.go_to(index + 1);
                                } else {
                                    self.go_to(pos);
                                }
                                Ok(())
                            },
                        }
                    },
                    CauchemarVMInstruction::Call(routine_name) => {
                        self.go_to(index + 1);
                        self.enter(routine_name, 0);
                        Ok(())
                    },
                    CauchemarVMInstruction::Nop => {
                        self.go_to(index + 1);
                        Ok(())
                    },
                    CauchemarVMInstruction::Return => {
                        self.leave();
                        Ok(())
                    },
                }
            },
        }
    }

    /// Executes the arithmetic instruction `instruction`, which stands for
    /// `op`, and advances the active frame.
    fn arithmetic(&mut self, op: Operator, instruction: CauchemarVMInstruction) -> (r: Result<
        (),
        CauchemarFault,
    >)
        requires
            old(self).ip@.len() > 0,
            old(self).ip@.last().index < usize::MAX,
            instruction_at(old(self).table(), old(self)@.frames.last()) == Some(instruction@),
        ensures
            final(self).routines == old(self).routines,
            ({
                let top = old(self)@.frames.last();
                let advanced = old(self)@.frames.drop_last().push(
                    Frame { routine: top.routine, index: top.index + 1 },
                );
                match crate::machine::arithmetic(op, advanced, old(self)@.store) {
                    Step::Next(m) => r is Ok && final(self)@ == m,
                    Step::Fault(k) => r is Err && describes(
                        r->Err_0,
                        k,
                        old(self).table(),
                        old(self)@,
                    ) && final(self)@ == old(self)@,
                }
            }),
    {
        let index = self.ip[self.ip.len() - 1].index;
        let outcome = match op {
            Operator::Add => binop(self, sum),
            Operator::Sub => binop(self, difference),
            Operator::Mul => binop(self, product),
            Operator::Div => binop(self, quotient),
        };
        match outcome {
            Err(k) => Err(self.fault(k, Some(instruction))),
            Ok(()) => {
                self.go_to(index + 1);
                Ok(())
            },
        }
    }
}

/// Runs the machine for at most `fuel` steps.
///
/// The run ends when the last frame returns, when a step faults, or when the
/// steps are used up; in the last case a further call goes on where this one
/// stopped.
pub fn run_vm(vm: &mut CauchemarVM, fuel: u64) -> (r: Result<CauchemarStatus, CauchemarFault>)
    ensures
        final(vm).routines == old(vm).routines,
        match run(old(vm).table(), old(vm)@, fuel as nat) {
            Run::Running(m) => r == Ok::<CauchemarStatus, CauchemarFault>(
                CauchemarStatus::Running,
            ) && final(vm)@ == m,
            Run::Halted(store) => r == Ok::<CauchemarStatus, CauchemarFault>(
                CauchemarStatus::Halted,
            ) && final(vm)@.store == store && final(vm)@.frames.len() == 0,
            Run::Faulted(k, m) => r is Err && describes(r->Err_0, k, old(vm).table(), m)
                && final(vm)@ == m,
        },
{
    let mut left = fuel;
    loop
        invariant
            vm.routines == old(vm).routines,
            run(old(vm).table(), old(vm)@, fuel as nat) == run(vm.table(), vm@, left as nat),
        decreases left,
    {
        if vm.halted() {
            return Ok(CauchemarStatus::Halted);
        }
        if left == 0 {
            return Ok(CauchemarStatus::Running);
        }
        match vm.step() {
            Err(fault) => {
                return Err(fault);
            },
            Ok(()) => {},
        }
        left = left - 1;
    }
}

} // verus!
