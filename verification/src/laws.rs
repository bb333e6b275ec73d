//! Facts about runs that follow from the semantics and from the correctness
//! of the compiler.

use vstd::prelude::*;
use crate::ast::Ast;
use crate::compiler::{
    compile_body, compile_command, compile_commands, compile_environment, Definition,
};
use crate::direct::{eval_command, eval_commands, eval_routine, popped, Outcome};
use crate::equivalence::{
    at, entering, holds_at, lemma_agrees_once, lemma_bytecode_follows_source, lemma_run_ended,
    lemma_run_next, lemma_run_one, lemma_source_follows_bytecode, lemma_step_user,
};
use crate::fault::FaultKind;
use crate::instruction::Instr;
use crate::machine::{run, step, Frame, Machine, Routine, Run, Step};
use crate::stack::{bool_at, Store};

verus! {

/// A machine that is still going has a frame: the frames run out exactly when
/// the machine halts.
pub proof fn lemma_running_has_frames(table: Map<Seq<char>, Routine>, m: Machine, n: nat)
    ensures
        run(table, m, n) is Running ==> run(table, m, n)->Running_0.frames.len() > 0,
        m.frames.len() == 0 ==> run(table, m, n) == Run::Halted(m.store),
    decreases n,
{
    if m.frames.len() > 0 && n > 0 {
        match step(table, m) {
            Step::Next(next) => {
                lemma_running_has_frames(table, next, (n - 1) as nat);
            },
            Step::Fault(_) => {},
        }
    }
}

/// Whether a fault can arise from the commands of a source: every kind but
/// the two that belong to loading and to the machine alone.
pub open spec fn from_source(k: FaultKind) -> bool {
    k != FaultKind::InvalidIndex && k != FaultKind::MissingEntryRoutine
}

/// Carrying out a command never ends in a fault that belongs to the machine
/// alone.
pub proof fn lemma_command_faults_from_source(
    env: Map<Seq<char>, Definition>,
    c: Ast,
    s: Store,
    fuel: nat,
)
    ensures
        eval_command(env, c, s, fuel) is Fault ==> from_source(
            eval_command(env, c, s, fuel)->Fault_0,
        ),
    decreases fuel, c,
{
    match c {
        Ast::Identifier(name) => {
            if env.contains_key(name) {
                match env[name] {
                    Definition::Native(_) => {},
                    Definition::User(body) => {
                        if fuel > 0 {
                            lemma_commands_fault_from_source(env, body, s, (fuel - 1) as nat);
                        }
                    },
                }
            }
        },
        Ast::If(then, otherwise) => {
            lemma_commands_fault_from_source(env, then, popped(s), fuel);
            lemma_commands_fault_from_source(env, otherwise, popped(s), fuel);
        },
        Ast::While(body) => {
            lemma_commands_fault_from_source(env, body, s, fuel);
            match eval_commands(env, body, s, fuel) {
                Outcome::Done(after) => {
                    if fuel > 0 {
                        lemma_command_faults_from_source(env, c, popped(after), (fuel - 1) as nat);
                    }
                },
                _ => {},
            }
        },
        _ => {},
    }
}

/// Carrying out a command list never ends in a fault that belongs to the
/// machine alone.
pub proof fn lemma_commands_fault_from_source(
    env: Map<Seq<char>, Definition>,
    cmds: Seq<Ast>,
    s: Store,
    fuel: nat,
)
    ensures
        eval_commands(env, cmds, s, fuel) is Fault ==> from_source(
            eval_commands(env, cmds, s, fuel)->Fault_0,
        ),
    decreases fuel, cmds,
{
    if cmds.len() > 0 {
        lemma_command_faults_from_source(env, cmds.first(), s, fuel);
        match eval_command(env, cmds.first(), s, fuel) {
            Outcome::Done(after) => {
                lemma_commands_fault_from_source(env, cmds.drop_first(), after, fuel);
            },
            _ => {},
        }
    }
}

/// A compiled program never leaves its code: whenever a frame of a user
/// routine is about to execute, its index lies within the routine. However
/// long the machine runs from the start of `entry`, it does not fault on an
/// index out of range.
pub proof fn lemma_compiled_index_in_range(
    env: Map<Seq<char>, Definition>,
    entry: Seq<char>,
    s: Store,
    n: nat,
)
    ensures
        run(compile_environment(env), entering(entry, s), n) is Faulted ==> from_source(
            run(compile_environment(env), entering(entry, s), n)->Faulted_0,
        ),
{
    if run(compile_environment(env), entering(entry, s), n) is Faulted {
        let fuel = lemma_source_follows_bytecode(env, entry, s, n);
        lemma_command_faults_from_source(env, Ast::Identifier(entry), s, fuel);
    }
}

/// A conditional without an else branch whose condition is false executes
/// nothing of its branches: two steps, the test and the closing no-op, take
/// the machine from the start of its bytecode to the instruction behind it,
/// and the store has lost the condition and is otherwise as it was.
pub proof fn lemma_false_conditional_skips(
    table: Map<Seq<char>, Routine>,
    routine: Seq<char>,
    code: Seq<Instr>,
    then: Seq<Ast>,
    base: int,
    below: Seq<Frame>,
    s: Store,
)
    requires
        table.contains_key(routine),
        table[routine] == Routine::User(code),
        holds_at(code, base, compile_command(Ast::If(then, Seq::empty()), base)),
        bool_at(s.stack, 0) == Ok::<bool, FaultKind>(false),
    ensures
        run(table, at(below, routine, base, s), 2) == Run::Running(
            at(
                below,
                routine,
                base + compile_command(Ast::If(then, Seq::empty()), base).len(),
                popped(s),
            ),
        ),
{
    let part = compile_command(Ast::If(then, Seq::empty()), base);
    let end = base + part.len() - 1;
    assert(code[base + 0] == part[0]);
    assert(code[base + (part.len() - 1)] == part[part.len() - 1]);
    lemma_step_user(table, routine, code, base, below, s);
    lemma_run_next(table, at(below, routine, base, s), at(below, routine, end, popped(s)), 1);
    lemma_run_one(table, routine, code, end, below, popped(s), end + 1, popped(s));
}

/// A loop whose condition is false the first time it is tested has carried
/// out its body once, the commands that compute the condition among them, and
/// no more: what is left is what the body left, without the condition.
pub proof fn lemma_loop_runs_body_once(
    env: Map<Seq<char>, Definition>,
    body: Seq<Ast>,
    s: Store,
    after: Store,
    fuel: nat,
)
    requires
        eval_commands(env, body, s, fuel) == Outcome::Done(after),
        bool_at(after.stack, 0) == Ok::<bool, FaultKind>(false),
    ensures
        eval_command(env, Ast::While(body), s, fuel) == Outcome::Done(popped(after)),
{
}

/// More fuel does not change how a routine ends: if carrying it out ends, with
/// a store or with a fault, for two amounts of fuel, it ends in the same way
/// for both.
pub proof fn lemma_outcome_unique(
    env: Map<Seq<char>, Definition>,
    entry: Seq<char>,
    s: Store,
    fuel: nat,
    other: nat,
)
    requires
        !(eval_routine(env, entry, s, fuel) is OutOfFuel),
        !(eval_routine(env, entry, s, other) is OutOfFuel),
    ensures
        eval_routine(env, entry, s, fuel) == eval_routine(env, entry, s, other),
{
    let table = compile_environment(env);
    let start = entering(entry, s);
    let n = lemma_bytecode_follows_source(env, entry, s, fuel);
    let m = lemma_bytecode_follows_source(env, entry, s, other);
    lemma_run_ended(table, start, n, m);
    lemma_run_ended(table, start, m, n);
    assert(n + m == m + n);
    lemma_agrees_once(
        eval_routine(env, entry, s, fuel),
        eval_routine(env, entry, s, other),
        run(table, start, n),
    );
}

/// Whether every jump of `code` leads to a position from `low` up to, but
/// not including, `high`.
pub open spec fn targets_within(code: Seq<Instr>, low: int, high: int) -> bool {
    forall|i: int|
        0 <= i < code.len() ==> match #[trigger] code[i] {
            Instr::Jump(target) | Instr::JumpIfFalse(target) => low <= target < high,
            _ => true,
        }
}

/// Jumps that stay within a stretch stay within a wider one.
proof fn lemma_targets_widen(code: Seq<Instr>, low: int, high: int, lower: int, higher: int)
    requires
        targets_within(code, low, high),
        lower <= low,
        high <= higher,
    ensures
        targets_within(code, lower, higher),
{
    assert forall|i: int| 0 <= i < code.len() implies match #[trigger] code[i] {
        Instr::Jump(target) | Instr::JumpIfFalse(target) => lower <= target < higher,
        _ => true,
    } by {
        assert(match code[i] {
            Instr::Jump(target) | Instr::JumpIfFalse(target) => low <= target < high,
            _ => true,
        });
    }
}

/// Where the jumps of two lists stay within a stretch, so do those of the two
/// put together.
proof fn lemma_targets_join(a: Seq<Instr>, b: Seq<Instr>, low: int, high: int)
    requires
        targets_within(a, low, high),
        targets_within(b, low, high),
    ensures
        targets_within(a + b, low, high),
{
    assert forall|i: int| 0 <= i < (a + b).len() implies match #[trigger] (a + b)[i] {
        Instr::Jump(target) | Instr::JumpIfFalse(target) => low <= target < high,
        _ => true,
    } by {
        if i < a.len() {
            assert((a + b)[i] == a[i]);
            assert(match a[i] {
                Instr::Jump(target) | Instr::JumpIfFalse(target) => low <= target < high,
                _ => true,
            });
        } else {
            assert((a + b)[i] == b[i - a.len()]);
            assert(match b[i - a.len()] {
                Instr::Jump(target) | Instr::JumpIfFalse(target) => low <= target < high,
                _ => true,
            });
        }
    }
}

/// Every jump in the bytecode of a command leads into that bytecode, and the
/// bytecode is not empty.
pub proof fn lemma_command_targets(c: Ast, base: int)
    ensures
        compile_command(c, base).len() > 0,
        targets_within(
            compile_command(c, base),
            base,
            base + compile_command(c, base).len(),
        ),
    decreases c,
{
    let part = compile_command(c, base);
    let end = base + part.len();
    match c {
        Ast::If(then, otherwise) => {
            let then_code = compile_commands(then, base + 1);
            let else_start = base + 1 + then_code.len() + 1;
            let else_code = compile_commands(otherwise, else_start);
            let test = seq![Instr::JumpIfFalse(else_start)];
            let skip = seq![Instr::Jump(else_start + else_code.len())];
            let close = seq![Instr::Nop];
            lemma_commands_targets(then, base + 1);
            lemma_commands_targets(otherwise, else_start);
            lemma_targets_widen(then_code, base + 1, base + 1 + then_code.len(), base, end);
            lemma_targets_widen(else_code, else_start, else_start + else_code.len(), base, end);
            assert(targets_within(test, base, end));
            assert(targets_within(skip, base, end));
            assert(targets_within(close, base, end));
            lemma_targets_join(test, then_code, base, end);
            lemma_targets_join(test + then_code, skip, base, end);
            lemma_targets_join(test + then_code + skip, else_code, base, end);
            lemma_targets_join(test + then_code + skip + else_code, close, base, end);
        },
        Ast::While(body) => {
            let body_code = compile_commands(body, base);
            let exit = base + body_code.len() + 2;
            let tail = seq![Instr::JumpIfFalse(exit), Instr::Jump(base), Instr::Nop];
            lemma_commands_targets(body, base);
            lemma_targets_widen(body_code, base, base + body_code.len(), base, end);
            assert(targets_within(tail, base, end));
            lemma_targets_join(body_code, tail, base, end);
        },
        _ => {},
    }
}

/// Every jump in the bytecode of a command list leads into that bytecode.
pub proof fn lemma_commands_targets(cmds: Seq<Ast>, base: int)
    ensures
        targets_within(
            compile_commands(cmds, base),
            base,
            base + compile_commands(cmds, base).len(),
        ),
    decreases cmds,
{
    if cmds.len() > 0 {
        let head = compile_command(cmds.first(), base);
        let tail = compile_commands(cmds.drop_first(), base + head.len());
        let end = base + head.len() + tail.len();
        lemma_command_targets(cmds.first(), base);
        lemma_commands_targets(cmds.drop_first(), base + head.len());
        lemma_targets_widen(head, base, base + head.len(), base, end);
        lemma_targets_widen(tail, base + head.len(), end, base, end);
        lemma_targets_join(head, tail, base, end);
    }
}

/// Every jump of a compiled routine leads to an instruction of the routine,
/// and the routine ends with a return: there is no way past its end.
pub proof fn lemma_routine_targets(cmds: Seq<Ast>)
    ensures
        targets_within(compile_body(cmds), 0, compile_body(cmds).len() as int),
        compile_body(cmds).last() == Instr::Return,
{
    let code = compile_commands(cmds, 0);
    let end = code.len() as int + 1;
    lemma_commands_targets(cmds, 0);
    lemma_targets_widen(code, 0, code.len() as int, 0, end);
    assert(targets_within(seq![Instr::Return], 0, end));
    lemma_targets_join(code, seq![Instr::Return], 0, end);
    assert(compile_body(cmds) =~= code + seq![Instr::Return]);
}

} // verus!
