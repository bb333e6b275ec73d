//! The compiler is correct: the machine that runs the compiled program does
//! what carrying out the command trees directly does.

use vstd::prelude::*;
use crate::ast::Ast;
use crate::compiler::{
    compile_body, compile_command, compile_commands, compile_environment, environment,
    Definition,
};
use crate::direct::{eval_command, eval_commands, eval_routine, popped, Outcome};
use crate::fault::FaultKind;
use crate::instruction::Instr;
use crate::machine::{execute, initial, run, step, Frame, Machine, Routine, Run, Step};
use crate::stack::{bool_at, Store};

verus! {

/// The machine whose active frame is at `index` of `routine`.
pub open spec fn at(below: Seq<Frame>, routine: Seq<char>, index: int, store: Store) -> Machine {
    Machine { frames: below.push(Frame { routine, index }), store }
}

/// Whether the instructions `part` stand in `code` from position `base` on.
pub open spec fn holds_at(code: Seq<Instr>, base: int, part: Seq<Instr>) -> bool {
    &&& 0 <= base
    &&& base + part.len() <= code.len()
    &&& forall|i: int| 0 <= i < part.len() ==> code[base + i] == #[trigger] part[i]
}

/// Where a run is still going after some steps, further steps go on from
/// there.
pub proof fn lemma_run_add(table: Map<Seq<char>, Routine>, m: Machine, a: nat, b: nat)
    requires
        run(table, m, a) is Running,
    ensures
        run(table, m, a + b) == run(table, run(table, m, a)->Running_0, b),
    decreases a,
{
    if a > 0 {
        match step(table, m) {
            Step::Next(next) => {
                lemma_run_add(table, next, (a - 1) as nat, b);
            },
            Step::Fault(_) => {},
        }
    }
}

/// A run that has ended stays as it ended.
pub proof fn lemma_run_ended(table: Map<Seq<char>, Routine>, m: Machine, a: nat, b: nat)
    requires
        !(run(table, m, a) is Running),
    ensures
        run(table, m, a + b) == run(table, m, a),
    decreases a,
{
    if m.frames.len() > 0 && a > 0 {
        match step(table, m) {
            Step::Next(next) => {
                lemma_run_ended(table, next, (a - 1) as nat, b);
            },
            Step::Fault(_) => {},
        }
    }
}

/// A run that is still going was going at every earlier step.
pub proof fn lemma_run_going(table: Map<Seq<char>, Routine>, m: Machine, a: nat, b: nat)
    requires
        run(table, m, a + b) is Running,
    ensures
        run(table, m, a) is Running,
{
    if !(run(table, m, a) is Running) {
        lemma_run_ended(table, m, a, b);
    }
}

/// The step of a machine whose active frame is in a user routine executes the
/// instruction at the frame's index.
pub proof fn lemma_step_user(
    table: Map<Seq<char>, Routine>,
    routine: Seq<char>,
    code: Seq<Instr>,
    index: int,
    below: Seq<Frame>,
    s: Store,
)
    requires
        table.contains_key(routine),
        table[routine] == Routine::User(code),
        0 <= index < code.len(),
    ensures
        step(table, at(below, routine, index, s)) == execute(
            code[index],
            routine,
            index,
            below,
            s,
        ),
        at(below, routine, index, s).frames.len() > 0,
{
    let m = at(below, routine, index, s);
    assert(m.frames.last() == Frame { routine, index });
    assert(m.frames.drop_last() =~= below);
}

/// A step that goes well is the first step of a run.
pub proof fn lemma_run_next(table: Map<Seq<char>, Routine>, m: Machine, next: Machine, n: nat)
    requires
        m.frames.len() > 0,
        step(table, m) == Step::Next(next),
    ensures
        run(table, m, n + 1) == run(table, next, n),
{
}

/// A step that faults ends the run.
pub proof fn lemma_run_fault(table: Map<Seq<char>, Routine>, m: Machine, k: FaultKind, n: nat)
    requires
        m.frames.len() > 0,
        step(table, m) == Step::Fault(k),
    ensures
        run(table, m, n + 1) == Run::Faulted(k, m),
{
}

/// Where two lists stand one after the other, each stands at its place.
pub proof fn lemma_holds_at_split(code: Seq<Instr>, base: int, a: Seq<Instr>, b: Seq<Instr>)
    requires
        holds_at(code, base, a + b),
    ensures
        holds_at(code, base, a),
        holds_at(code, base + a.len(), b),
{
    assert forall|i: int| 0 <= i < a.len() implies code[base + i] == #[trigger] a[i] by {
        assert((a + b)[i] == a[i]);
    }
    assert forall|i: int| 0 <= i < b.len() implies code[base + a.len() + i] == #[trigger] b[i] by {
        assert((a + b)[a.len() + i] == b[i]);
    }
}

/// Whether a run of `n` steps from `start` does what `outcome` says: it gets
/// to the frames `frames` with the store of `Done`; or it faults as `Fault`
/// says; or, where the source ran out of the fuel `fuel`, it has taken at
/// least `fuel` steps, is still going and has the store at which the source
/// stopped.
pub open spec fn simulates(
    table: Map<Seq<char>, Routine>,
    start: Machine,
    frames: Seq<Frame>,
    outcome: Outcome,
    fuel: nat,
    n: nat,
) -> bool {
    match outcome {
        Outcome::Done(after) => run(table, start, n) == Run::Running(
            Machine { frames, store: after },
        ),
        Outcome::Fault(k, after) => run(table, start, n) is Faulted && run(
            table,
            start,
            n,
        )->Faulted_0 == k && run(table, start, n)->Faulted_1.store == after,
        Outcome::OutOfFuel(stranded) => n >= fuel && run(table, start, n) is Running && run(
            table,
            start,
            n,
        )->Running_0.store == stranded,
    }
}

/// What a run does from a later machine, it does from an earlier one that
/// gets there.
pub proof fn lemma_simulates_after(
    table: Map<Seq<char>, Routine>,
    start: Machine,
    lead: nat,
    mid: Machine,
    frames: Seq<Frame>,
    outcome: Outcome,
    inner: nat,
    fuel: nat,
    n: nat,
)
    requires
        run(table, start, lead) == Run::Running(mid),
        simulates(table, mid, frames, outcome, inner, n),
        fuel <= inner + lead,
    ensures
        simulates(table, start, frames, outcome, fuel, lead + n),
{
    lemma_run_add(table, start, lead, n);
}

/// One instruction that neither jumps nor faults leads to the next one.
pub proof fn lemma_run_one(
    table: Map<Seq<char>, Routine>,
    routine: Seq<char>,
    code: Seq<Instr>,
    index: int,
    below: Seq<Frame>,
    s: Store,
    target: int,
    after: Store,
)
    requires
        table.contains_key(routine),
        table[routine] == Routine::User(code),
        0 <= index < code.len(),
        execute(code[index], routine, index, below, s) == Step::Next(
            at(below, routine, target, after),
        ),
    ensures
        run(table, at(below, routine, index, s), 1) == Run::Running(
            at(below, routine, target, after),
        ),
{
    lemma_step_user(table, routine, code, index, below, s);
    lemma_run_next(table, at(below, routine, index, s), at(below, routine, target, after), 0);
}

/// A literal or an arithmetic command is one instruction, and that
/// instruction does what the command does.
proof fn lemma_simple_simulated(
    env: Map<Seq<char>, Definition>,
    routine: Seq<char>,
    code: Seq<Instr>,
    c: Ast,
    base: int,
    below: Seq<Frame>,
    s: Store,
    fuel: nat,
)
    requires
        compile_environment(env).contains_key(routine),
        compile_environment(env)[routine] == Routine::User(code),
        holds_at(code, base, compile_command(c, base)),
        !(c is Identifier) && !(c is If) && !(c is While),
    ensures
        simulates(
            compile_environment(env),
            at(below, routine, base, s),
            below.push(Frame { routine, index: base + compile_command(c, base).len() }),
            eval_command(env, c, s, fuel),
            fuel,
            1,
        ),
{
    let table = compile_environment(env);
    let start = at(below, routine, base, s);
    let part = compile_command(c, base);
    lemma_step_user(table, routine, code, base, below, s);
    assert(code[base + 0] == part[0]);
    match step(table, start) {
        Step::Next(next) => {
            lemma_run_next(table, start, next, 0);
        },
        Step::Fault(k) => {
            lemma_run_fault(table, start, k, 0);
        },
    }
}

/// A call of a name that stands for nothing, or for a built-in routine, does
/// what the name does.
proof fn lemma_plain_call_simulated(
    env: Map<Seq<char>, Definition>,
    routine: Seq<char>,
    code: Seq<Instr>,
    name: Seq<char>,
    base: int,
    below: Seq<Frame>,
    s: Store,
    fuel: nat,
)
    requires
        compile_environment(env).contains_key(routine),
        compile_environment(env)[routine] == Routine::User(code),
        holds_at(code, base, compile_command(Ast::Identifier(name), base)),
        !env.contains_key(name) || env[name] is Native,
    ensures
        simulates(
            compile_environment(env),
            at(below, routine, base, s),
            below.push(Frame { routine, index: base + 1 }),
            eval_command(env, Ast::Identifier(name), s, fuel),
            fuel,
            2,
        ),
{
    let table = compile_environment(env);
    let start = at(below, routine, base, s);
    let part = compile_command(Ast::Identifier(name), base);
    lemma_step_user(table, routine, code, base, below, s);
    assert(code[base + 0] == part[0]);
    let inner = below.push(Frame { routine, index: base + 1 });
    let called = at(inner, name, 0, s);
    assert(step(table, start) == Step::Next(called));
    assert(called.frames.last() == Frame { routine: name, index: 0 });
    assert(called.frames.drop_last() =~= inner);
    lemma_run_next(table, start, called, 1);
    match step(table, called) {
        Step::Next(next) => {
            lemma_run_next(table, called, next, 0);
        },
        Step::Fault(k) => {
            lemma_run_fault(table, called, k, 0);
        },
    }
}

/// What is left of a call of a user routine once its body is known to be
/// simulated: the call instruction before it and the return behind it.
proof fn lemma_call_wrapped(
    table: Map<Seq<char>, Routine>,
    routine: Seq<char>,
    code: Seq<Instr>,
    name: Seq<char>,
    callee: Seq<Instr>,
    len: int,
    base: int,
    below: Seq<Frame>,
    s: Store,
    outcome: Outcome,
    fuel: nat,
    n1: nat,
) -> (n: nat)
    requires
        table.contains_key(routine),
        table[routine] == Routine::User(code),
        0 <= base < code.len(),
        code[base] == Instr::Call(name),
        table.contains_key(name),
        table[name] == Routine::User(callee),
        0 <= len < callee.len(),
        callee[len] == Instr::Return,
        fuel > 0,
        simulates(
            table,
            at(below.push(Frame { routine, index: base + 1 }), name, 0, s),
            below.push(Frame { routine, index: base + 1 }).push(Frame { routine: name, index: len }),
            outcome,
            (fuel - 1) as nat,
            n1,
        ),
    ensures
        simulates(
            table,
            at(below, routine, base, s),
            below.push(Frame { routine, index: base + 1 }),
            outcome,
            fuel,
            n,
        ),
{
    let start = at(below, routine, base, s);
    lemma_step_user(table, routine, code, base, below, s);
    let inner = below.push(Frame { routine, index: base + 1 });
    let called = at(inner, name, 0, s);
    assert(step(table, start) == Step::Next(called));
    match outcome {
        Outcome::Done(after) => {
            let back = at(inner, name, len, after);
            lemma_step_user(table, name, callee, len, inner, after);
            let home = Machine { frames: inner, store: after };
            lemma_run_next(table, back, home, 0);
            lemma_run_add(table, called, n1, 1);
            lemma_run_next(table, start, called, n1 + 1);
            (n1 + 2) as nat
        },
        Outcome::Fault(k, after) => {
            lemma_run_next(table, start, called, n1);
            n1 + 1
        },
        Outcome::OutOfFuel(_) => {
            lemma_run_next(table, start, called, n1);
            n1 + 1
        },
    }
}

/// What is left of a conditional once the branch taken is known to be
/// simulated: the test before it, and the jump and the no-op behind it.
proof fn lemma_conditional_wrapped(
    table: Map<Seq<char>, Routine>,
    routine: Seq<char>,
    code: Seq<Instr>,
    base: int,
    else_start: int,
    end: int,
    below: Seq<Frame>,
    s: Store,
    taken: bool,
    outcome: Outcome,
    fuel: nat,
    n1: nat,
) -> (n: nat)
    requires
        table.contains_key(routine),
        table[routine] == Routine::User(code),
        0 <= base < else_start - 1,
        else_start <= end < code.len(),
        code[base] == Instr::JumpIfFalse(else_start),
        code[else_start - 1] == Instr::Jump(end),
        code[end] == Instr::Nop,
        bool_at(s.stack, 0) == Ok::<bool, FaultKind>(taken),
        simulates(
            table,
            at(
                below,
                routine,
                if taken {
                    base + 1
                } else {
                    else_start
                },
                popped(s),
            ),
            below.push(
                Frame {
                    routine,
                    index: if taken {
                        else_start - 1
                    } else {
                        end
                    },
                },
            ),
            outcome,
            fuel,
            n1,
        ),
    ensures
        simulates(
            table,
            at(below, routine, base, s),
            below.push(Frame { routine, index: end + 1 }),
            outcome,
            fuel,
            n,
        ),
{
    let start = at(below, routine, base, s);
    lemma_step_user(table, routine, code, base, below, s);
    let done = below.push(Frame { routine, index: end + 1 });
    let entered = at(below, routine, if taken { base + 1 } else { else_start }, popped(s));
    lemma_run_next(table, start, entered, 0);
    match outcome {
        Outcome::Done(after) => {
            lemma_run_one(table, routine, code, end, below, after, end + 1, after);
            if taken {
                let left = at(below, routine, else_start - 1, after);
                lemma_run_one(table, routine, code, else_start - 1, below, after, end, after);
                lemma_run_add(table, left, 1, 1);
                lemma_run_add(table, entered, n1, 2);
                lemma_simulates_after(table, start, 1, entered, done, outcome, fuel, fuel, n1 + 2);
                (n1 + 3) as nat
            } else {
                lemma_run_add(table, entered, n1, 1);
                lemma_simulates_after(table, start, 1, entered, done, outcome, fuel, fuel, n1 + 1);
                (n1 + 2) as nat
            }
        },
        _ => {
            lemma_simulates_after(
                table,
                start,
                1,
                entered,
                below.push(Frame { routine, index: if taken { else_start - 1 } else { end } }),
                outcome,
                fuel,
                fuel,
                n1,
            );
            n1 + 1
        },
    }
}

/// A conditional whose test faults.
proof fn lemma_conditional_faults(
    table: Map<Seq<char>, Routine>,
    routine: Seq<char>,
    code: Seq<Instr>,
    base: int,
    else_start: int,
    below: Seq<Frame>,
    s: Store,
    k: FaultKind,
)
    requires
        table.contains_key(routine),
        table[routine] == Routine::User(code),
        0 <= base < code.len(),
        code[base] == Instr::JumpIfFalse(else_start),
        bool_at(s.stack, 0) == Err::<bool, FaultKind>(k),
    ensures
        run(table, at(below, routine, base, s), 1) == Run::Faulted(k, at(below, routine, base, s)),
{
    lemma_step_user(table, routine, code, base, below, s);
    lemma_run_fault(table, at(below, routine, base, s), k, 0);
}

/// What follows the body of a loop when the test ends the loop or faults.
proof fn lemma_loop_left(
    table: Map<Seq<char>, Routine>,
    routine: Seq<char>,
    code: Seq<Instr>,
    test_at: int,
    below: Seq<Frame>,
    after: Store,
)
    requires
        table.contains_key(routine),
        table[routine] == Routine::User(code),
        0 <= test_at,
        test_at + 2 < code.len(),
        code[test_at] == Instr::JumpIfFalse(test_at + 2),
        code[test_at + 2] == Instr::Nop,
        !(bool_at(after.stack, 0) == Ok::<bool, FaultKind>(true)),
    ensures
        match bool_at(after.stack, 0) {
            Err(k) => run(table, at(below, routine, test_at, after), 1) == Run::Faulted(
                k,
                at(below, routine, test_at, after),
            ),
            Ok(_) => run(table, at(below, routine, test_at, after), 2) == Run::Running(
                at(below, routine, test_at + 3, popped(after)),
            ),
        },
{
    let tested = at(below, routine, test_at, after);
    lemma_step_user(table, routine, code, test_at, below, after);
    match bool_at(after.stack, 0) {
        Err(k) => {
            lemma_run_fault(table, tested, k, 0);
        },
        Ok(_) => {
            let out = at(below, routine, test_at + 2, popped(after));
            lemma_run_next(table, tested, out, 1);
            lemma_run_one(
                table,
                routine,
                code,
                test_at + 2,
                below,
                popped(after),
                test_at + 3,
                popped(after),
            );
        },
    }
}

/// What follows the body of a loop when the test sends it round again.
proof fn lemma_loop_again(
    table: Map<Seq<char>, Routine>,
    routine: Seq<char>,
    code: Seq<Instr>,
    base: int,
    test_at: int,
    below: Seq<Frame>,
    after: Store,
)
    requires
        table.contains_key(routine),
        table[routine] == Routine::User(code),
        0 <= base <= test_at,
        test_at + 2 < code.len(),
        code[test_at] == Instr::JumpIfFalse(test_at + 2),
        code[test_at + 1] == Instr::Jump(base),
        bool_at(after.stack, 0) == Ok::<bool, FaultKind>(true),
    ensures
        run(table, at(below, routine, test_at, after), 2) == Run::Running(
            at(below, routine, base, popped(after)),
        ),
{
    let tested = at(below, routine, test_at, after);
    lemma_step_user(table, routine, code, test_at, below, after);
    let on = at(below, routine, test_at + 1, popped(after));
    lemma_run_next(table, tested, on, 1);
    lemma_run_one(table, routine, code, test_at + 1, below, popped(after), base, popped(after));
}

/// The bytecode of a command does what the command does.
///
/// Let the bytecode of `c` stand at `base` in the user routine `routine` of
/// the table that `env` is compiled to, and let the machine be about to
/// execute it on the store `s`. If carrying out `c` on `s` ends with a store,
/// the machine gets to the instruction behind the bytecode with that store and
/// the frames below untouched. If it faults, the machine faults in the same
/// way on the same store. If it runs out of fuel, the machine has by then
/// taken at least `fuel` steps, is still going and has the store at which the
/// source stopped. In each case `n` is the number of steps taken.
pub proof fn lemma_command_simulated(
    env: Map<Seq<char>, Definition>,
    routine: Seq<char>,
    code: Seq<Instr>,
    c: Ast,
    base: int,
    below: Seq<Frame>,
    s: Store,
    fuel: nat,
) -> (n: nat)
    requires
        compile_environment(env).contains_key(routine),
        compile_environment(env)[routine] == Routine::User(code),
        holds_at(code, base, compile_command(c, base)),
    ensures
        simulates(
            compile_environment(env),
            at(below, routine, base, s),
            below.push(Frame { routine, index: base + compile_command(c, base).len() }),
            eval_command(env, c, s, fuel),
            fuel,
            n,
        ),
    decreases fuel, c, 1nat,
{
    match c {
        Ast::Identifier(name) => lemma_call_simulated(
            env,
            routine,
            code,
            name,
            base,
            below,
            s,
            fuel,
        ),
        Ast::If(then, otherwise) => lemma_conditional_simulated(
            env,
            routine,
            code,
            then,
            otherwise,
            base,
            below,
            s,
            fuel,
        ),
        Ast::While(body) => lemma_loop_simulated(env, routine, code, body, base, below, s, fuel),
        _ => {
            lemma_simple_simulated(env, routine, code, c, base, below, s, fuel);
            1
        },
    }
}

/// The call of a name does what the name stands for.
proof fn lemma_call_simulated(
    env: Map<Seq<char>, Definition>,
    routine: Seq<char>,
    code: Seq<Instr>,
    name: Seq<char>,
    base: int,
    below: Seq<Frame>,
    s: Store,
    fuel: nat,
) -> (n: nat)
    requires
        compile_environment(env).contains_key(routine),
        compile_environment(env)[routine] == Routine::User(code),
        holds_at(code, base, compile_command(Ast::Identifier(name), base)),
    ensures
        simulates(
            compile_environment(env),
            at(below, routine, base, s),
            below.push(Frame { routine, index: base + 1 }),
            eval_command(env, Ast::Identifier(name), s, fuel),
            fuel,
            n,
        ),
    decreases fuel, Ast::Identifier(name), 0nat,
{
    let table = compile_environment(env);
    if !env.contains_key(name) || env[name] is Native {
        lemma_plain_call_simulated(env, routine, code, name, base, below, s, fuel);
        2
    } else if fuel == 0 {
        assert(at(below, routine, base, s).frames.len() > 0);
        0
    } else {
        let body = env[name]->User_0;
        let callee = compile_body(body);
        let len = compile_commands(body, 0).len() as int;
        let inner = below.push(Frame { routine, index: base + 1 });
        assert(holds_at(callee, 0, compile_commands(body, 0)));
        let n1 = lemma_commands_simulated(env, name, callee, body, 0, inner, s, (fuel - 1) as nat);
        assert(code[base + 0] == compile_command(Ast::Identifier(name), base)[0]);
        lemma_call_wrapped(
            table,
            routine,
            code,
            name,
            callee,
            len,
            base,
            below,
            s,
            eval_commands(env, body, s, (fuel - 1) as nat),
            fuel,
            n1,
        )
    }
}

/// The bytecode of a conditional does what the conditional does.
proof fn lemma_conditional_simulated(
    env: Map<Seq<char>, Definition>,
    routine: Seq<char>,
    code: Seq<Instr>,
    then: Seq<Ast>,
    otherwise: Seq<Ast>,
    base: int,
    below: Seq<Frame>,
    s: Store,
    fuel: nat,
) -> (n: nat)
    requires
        compile_environment(env).contains_key(routine),
        compile_environment(env)[routine] == Routine::User(code),
        holds_at(code, base, compile_command(Ast::If(then, otherwise), base)),
    ensures
        simulates(
            compile_environment(env),
            at(below, routine, base, s),
            below.push(
                Frame {
                    routine,
                    index: base + compile_command(Ast::If(then, otherwise), base).len(),
                },
            ),
            eval_command(env, Ast::If(then, otherwise), s, fuel),
            fuel,
            n,
        ),
    decreases fuel, Ast::If(then, otherwise), 0nat,
{
    let table = compile_environment(env);
    let part = compile_command(Ast::If(then, otherwise), base);
    let then_code = compile_commands(then, base + 1);
    let else_start = base + 1 + then_code.len() + 1;
    let else_code = compile_commands(otherwise, else_start);
    let end = else_start + else_code.len();
    let test = seq![Instr::JumpIfFalse(else_start)];
    let skip = seq![Instr::Jump(end)];
    let close = seq![Instr::Nop];
    assert(part == test + then_code + skip + else_code + close);
    lemma_holds_at_split(code, base, test + then_code + skip + else_code, close);
    lemma_holds_at_split(code, base, test + then_code + skip, else_code);
    lemma_holds_at_split(code, base, test + then_code, skip);
    lemma_holds_at_split(code, base, test, then_code);
    assert(code[base + 0] == test[0]);
    assert(code[else_start - 1 + 0] == skip[0]);
    assert(code[end + 0] == close[0]);
    match bool_at(s.stack, 0) {
        Err(k) => {
            lemma_conditional_faults(table, routine, code, base, else_start, below, s, k);
            1
        },
        Ok(taken) => {
            let n1 = if taken {
                lemma_commands_simulated(env, routine, code, then, base + 1, below, popped(s), fuel)
            } else {
                lemma_commands_simulated(
                    env,
                    routine,
                    code,
                    otherwise,
                    else_start,
                    below,
                    popped(s),
                    fuel,
                )
            };
            lemma_conditional_wrapped(
                table,
                routine,
                code,
                base,
                else_start,
                end,
                below,
                s,
                taken,
                eval_command(env, Ast::If(then, otherwise), s, fuel),
                fuel,
                n1,
            )
        },
    }
}

/// The bytecode of a loop does what the loop does.
proof fn lemma_loop_simulated(
    env: Map<Seq<char>, Definition>,
    routine: Seq<char>,
    code: Seq<Instr>,
    body: Seq<Ast>,
    base: int,
    below: Seq<Frame>,
    s: Store,
    fuel: nat,
) -> (n: nat)
    requires
        compile_environment(env).contains_key(routine),
        compile_environment(env)[routine] == Routine::User(code),
        holds_at(code, base, compile_command(Ast::While(body), base)),
    ensures
        simulates(
            compile_environment(env),
            at(below, routine, base, s),
            below.push(
                Frame { routine, index: base + compile_command(Ast::While(body), base).len() },
            ),
            eval_command(env, Ast::While(body), s, fuel),
            fuel,
            n,
        ),
    decreases fuel, Ast::While(body), 0nat,
{
    let table = compile_environment(env);
    let c = Ast::While(body);
    let start = at(below, routine, base, s);
    let part = compile_command(c, base);
    let body_code = compile_commands(body, base);
    let test_at = base + body_code.len();
    let exit = test_at + 2;
    let tail = seq![Instr::JumpIfFalse(exit), Instr::Jump(base), Instr::Nop];
    assert(part == body_code + tail);
    lemma_holds_at_split(code, base, body_code, tail);
    assert(code[test_at + 0] == tail[0]);
    assert(code[test_at + 1] == tail[1]);
    assert(code[test_at + 2] == tail[2]);
    let done = below.push(Frame { routine, index: exit + 1 });
    let n1 = lemma_commands_simulated(env, routine, code, body, base, below, s, fuel);
    match eval_commands(env, body, s, fuel) {
        Outcome::Done(after) => {
            if bool_at(after.stack, 0) == Ok::<bool, FaultKind>(true) {
                lemma_loop_again(table, routine, code, base, test_at, below, after);
                lemma_run_add(table, start, n1, 2);
                if fuel == 0 {
                    n1 + 2
                } else {
                    let n2 = lemma_loop_simulated(
                        env,
                        routine,
                        code,
                        body,
                        base,
                        below,
                        popped(after),
                        (fuel - 1) as nat,
                    );
                    let outcome = eval_command(env, c, popped(after), (fuel - 1) as nat);
                    lemma_simulates_after(
                        table,
                        start,
                        n1 + 2,
                        at(below, routine, base, popped(after)),
                        done,
                        outcome,
                        (fuel - 1) as nat,
                        fuel,
                        n2,
                    );
                    n1 + 2 + n2
                }
            } else {
                lemma_loop_left(table, routine, code, test_at, below, after);
                lemma_run_add(table, start, n1, 1);
                lemma_run_add(table, start, n1, 2);
                if bool_at(after.stack, 0) is Err {
                    n1 + 1
                } else {
                    n1 + 2
                }
            }
        },
        _ => n1,
    }
}

/// The bytecode of a command list does what the list does: as
/// `lemma_command_simulated` says of one command.
pub proof fn lemma_commands_simulated(
    env: Map<Seq<char>, Definition>,
    routine: Seq<char>,
    code: Seq<Instr>,
    cmds: Seq<Ast>,
    base: int,
    below: Seq<Frame>,
    s: Store,
    fuel: nat,
) -> (n: nat)
    requires
        compile_environment(env).contains_key(routine),
        compile_environment(env)[routine] == Routine::User(code),
        holds_at(code, base, compile_commands(cmds, base)),
    ensures
        simulates(
            compile_environment(env),
            at(below, routine, base, s),
            below.push(Frame { routine, index: base + compile_commands(cmds, base).len() }),
            eval_commands(env, cmds, s, fuel),
            fuel,
            n,
        ),
    decreases fuel, cmds, 2nat,
{
    let table = compile_environment(env);
    let start = at(below, routine, base, s);
    if cmds.len() == 0 {
        assert(start.frames.len() > 0);
        0
    } else {
        let head = compile_command(cmds.first(), base);
        let tail = compile_commands(cmds.drop_first(), base + head.len());
        lemma_holds_at_split(code, base, head, tail);
        let n1 = lemma_command_simulated(env, routine, code, cmds.first(), base, below, s, fuel);
        match eval_command(env, cmds.first(), s, fuel) {
            Outcome::Done(after) => {
                let n2 = lemma_commands_simulated(
                    env,
                    routine,
                    code,
                    cmds.drop_first(),
                    base + head.len(),
                    below,
                    after,
                    fuel,
                );
                lemma_simulates_after(
                    table,
                    start,
                    n1,
                    at(below, routine, base + head.len(), after),
                    below.push(Frame { routine, index: base + head.len() + tail.len() }),
                    eval_commands(env, cmds.drop_first(), after, fuel),
                    fuel,
                    fuel,
                    n2,
                );
                n1 + n2
            },
            _ => n1,
        }
    }
}

/// The machine that is about to run `entry` on the store `s`, with no other
/// call in progress.
pub open spec fn entering(entry: Seq<char>, s: Store) -> Machine {
    at(Seq::empty(), entry, 0, s)
}

/// The machine at the start of a run is about to run the entry routine on an
/// empty store.
pub proof fn lemma_initial_enters(entry: Seq<char>)
    ensures
        initial(entry) == entering(entry, Store { stack: Seq::empty(), output: Seq::empty() }),
{
    assert(initial(entry).frames =~= entering(
        entry,
        Store { stack: Seq::empty(), output: Seq::empty() },
    ).frames);
}

/// Whether what a run has come to is what `outcome` says: it has halted with
/// the store of `Done`; or it has faulted as `Fault` says, with the same kind
/// and on the same store; or it is still going and has the store at which
/// the source ran out of fuel.
pub open spec fn agrees(outcome: Outcome, reached: Run) -> bool {
    match outcome {
        Outcome::Done(after) => reached == Run::Halted(after),
        Outcome::Fault(k, after) => reached is Faulted && reached->Faulted_0 == k
            && reached->Faulted_1.store == after,
        Outcome::OutOfFuel(stranded) => reached is Running && reached->Running_0.store
            == stranded,
    }
}

/// The compiled program does what the source does.
///
/// If running the routine `entry` of the source on the store `s` ends, with a
/// store or with a fault, within the fuel `fuel`, then the machine that the
/// source is compiled to ends in the same way after the `n` steps returned.
/// If the source runs out of fuel, then after `n` steps, which are no fewer
/// than `fuel - 1`, the machine is still going and has the store, stack and
/// output, at which the source stopped.
pub proof fn lemma_bytecode_follows_source(
    env: Map<Seq<char>, Definition>,
    entry: Seq<char>,
    s: Store,
    fuel: nat,
) -> (n: nat)
    ensures
        agrees(
            eval_routine(env, entry, s, fuel),
            run(compile_environment(env), entering(entry, s), n),
        ),
        eval_routine(env, entry, s, fuel) is OutOfFuel ==> n + 1 >= fuel,
{
    let table = compile_environment(env);
    let start = entering(entry, s);
    let none = Seq::<Frame>::empty();
    assert(start.frames.last() == Frame { routine: entry, index: 0 });
    assert(start.frames.drop_last() =~= none);
    if !env.contains_key(entry) {
        lemma_run_fault(table, start, FaultKind::UnknownRoutine, 0);
        1
    } else {
        match env[entry] {
            Definition::Native(native) => {
                match step(table, start) {
                    Step::Next(next) => {
                        lemma_run_next(table, start, next, 0);
                    },
                    Step::Fault(k) => {
                        lemma_run_fault(table, start, k, 0);
                    },
                }
                1
            },
            Definition::User(body) => {
                if fuel == 0 {
                    0
                } else {
                    let code = compile_body(body);
                    let len = compile_commands(body, 0).len() as int;
                    assert(holds_at(code, 0, compile_commands(body, 0)));
                    let n1 = lemma_commands_simulated(
                        env,
                        entry,
                        code,
                        body,
                        0,
                        none,
                        s,
                        (fuel - 1) as nat,
                    );
                    match eval_commands(env, body, s, (fuel - 1) as nat) {
                        Outcome::Done(after) => {
                            let back = at(none, entry, len, after);
                            lemma_step_user(table, entry, code, len, none, after);
                            let over = Machine { frames: none, store: after };
                            lemma_run_next(table, back, over, 0);
                            lemma_run_add(table, start, n1, 1);
                            n1 + 1
                        },
                        _ => n1,
                    }
                }
            },
        }
    }
}

/// The source does what the compiled program does.
///
/// If the machine that the source is compiled to has halted or faulted after
/// `n` steps from the start of the routine `entry`, then running `entry` of
/// the source ends in the same way within the fuel returned.
pub proof fn lemma_source_follows_bytecode(
    env: Map<Seq<char>, Definition>,
    entry: Seq<char>,
    s: Store,
    n: nat,
) -> (fuel: nat)
    requires
        !(run(compile_environment(env), entering(entry, s), n) is Running),
    ensures
        agrees(
            eval_routine(env, entry, s, fuel),
            run(compile_environment(env), entering(entry, s), n),
        ),
        !(eval_routine(env, entry, s, fuel) is OutOfFuel),
{
    let table = compile_environment(env);
    let start = entering(entry, s);
    let fuel = n + 2;
    let m = lemma_bytecode_follows_source(env, entry, s, fuel);
    let outcome = eval_routine(env, entry, s, fuel);
    if outcome is OutOfFuel {
        lemma_run_going(table, start, n, (m - n) as nat);
    } else {
        lemma_run_ended(table, start, n, m);
        lemma_run_ended(table, start, m, n);
        assert(n + m == m + n);
    }
    fuel
}

/// Whether running `entry` of the source on `s` comes to `outcome` with
/// some fuel.
pub open spec fn source_ends(
    env: Map<Seq<char>, Definition>,
    entry: Seq<char>,
    s: Store,
    outcome: Outcome,
) -> bool {
    exists|fuel: nat| #[trigger] eval_routine(env, entry, s, fuel) == outcome
}

/// Whether the machine that is about to run `entry` on `s` comes to what
/// `outcome` says after some number of steps.
pub open spec fn machine_ends(
    table: Map<Seq<char>, Routine>,
    entry: Seq<char>,
    s: Store,
    outcome: Outcome,
) -> bool {
    exists|n: nat| agrees(outcome, #[trigger] run(table, entering(entry, s), n))
}

/// Whether running `entry` of the source on `s` never ends, whatever the
/// fuel.
pub open spec fn source_runs_on(env: Map<Seq<char>, Definition>, entry: Seq<char>, s: Store) -> bool {
    forall|fuel: nat| #[trigger] eval_routine(env, entry, s, fuel) is OutOfFuel
}

/// Whether the machine that is about to run `entry` on `s` never halts or
/// faults, however many steps it takes.
pub open spec fn machine_runs_on(
    table: Map<Seq<char>, Routine>,
    entry: Seq<char>,
    s: Store,
) -> bool {
    forall|n: nat| #[trigger] run(table, entering(entry, s), n) is Running
}

/// Running the compiled program is observationally the same as carrying out
/// the source directly.
///
/// For every environment, entry routine and store: the source ends with a
/// store exactly if the machine halts with that store, stack and output
/// alike; the source faults exactly if the machine faults, with the same kind
/// of fault and on the same store; and the one runs on for ever exactly if the
/// other does. What a run that never ends prints is the same on both sides
/// too: by `lemma_bytecode_follows_source`, wherever the source stops for want
/// of fuel the machine gets to the same store.
pub proof fn theorem_compiler_correct(env: Map<Seq<char>, Definition>, entry: Seq<char>, s: Store)
    ensures
        forall|outcome: Outcome|
            !(outcome is OutOfFuel) ==> (#[trigger] source_ends(env, entry, s, outcome)
                <==> machine_ends(compile_environment(env), entry, s, outcome)),
        source_runs_on(env, entry, s) <==> machine_runs_on(compile_environment(env), entry, s),
{
    let table = compile_environment(env);
    let start = entering(entry, s);
    if source_runs_on(env, entry, s) {
        assert forall|n: nat| #[trigger] run(table, start, n) is Running by {
            let fuel = n + 2;
            assert(eval_routine(env, entry, s, fuel) is OutOfFuel);
            let m = lemma_bytecode_follows_source(env, entry, s, fuel);
            lemma_run_going(table, start, n, (m - n) as nat);
        }
    }
    if machine_runs_on(table, entry, s) {
        assert forall|fuel: nat| #[trigger] eval_routine(env, entry, s, fuel) is OutOfFuel by {
            let n = lemma_bytecode_follows_source(env, entry, s, fuel);
            assert(run(table, start, n) is Running);
        }
    }
    assert forall|outcome: Outcome| !(outcome is OutOfFuel) implies (#[trigger] source_ends(
        env,
        entry,
        s,
        outcome,
    ) <==> machine_ends(table, entry, s, outcome)) by {
        if source_ends(env, entry, s, outcome) {
            let fuel = choose|fuel: nat| #[trigger] eval_routine(env, entry, s, fuel) == outcome;
            let n = lemma_bytecode_follows_source(env, entry, s, fuel);
            assert(agrees(outcome, run(table, start, n)));
        }
        if machine_ends(table, entry, s, outcome) {
            let n = choose|n: nat| agrees(outcome, #[trigger] run(table, start, n));
            let fuel = lemma_source_follows_bytecode(env, entry, s, n);
            lemma_agrees_once(eval_routine(env, entry, s, fuel), outcome, run(table, start, n));
            assert(eval_routine(env, entry, s, fuel) == outcome);
        }
    }
}

/// The store at the start of a run: nothing on the stack, nothing printed.
pub open spec fn empty_store() -> Store {
    Store { stack: Seq::empty(), output: Seq::empty() }
}

/// A compiled program runs as it is written.
///
/// The machine that a program is compiled to, started at the first
/// instruction of `PROGRAM` with an empty stack, halts, faults or runs on for
/// ever exactly as carrying out `PROGRAM` directly does, with the same stack
/// and the same output.
pub proof fn theorem_program_correct(program: Map<Seq<char>, Seq<Ast>>)
    ensures
        initial("PROGRAM"@) == entering("PROGRAM"@, empty_store()),
        forall|outcome: Outcome|
            !(outcome is OutOfFuel) ==> (#[trigger] source_ends(
                environment(program),
                "PROGRAM"@,
                empty_store(),
                outcome,
            ) <==> machine_ends(
                compile_environment(environment(program)),
                "PROGRAM"@,
                empty_store(),
                outcome,
            )),
        source_runs_on(environment(program), "PROGRAM"@, empty_store()) <==> machine_runs_on(
            compile_environment(environment(program)),
            "PROGRAM"@,
            empty_store(),
        ),
{
    lemma_initial_enters("PROGRAM"@);
    theorem_compiler_correct(environment(program), "PROGRAM"@, empty_store());
}

/// A run that has ended agrees with one outcome only.
pub proof fn lemma_agrees_once(a: Outcome, b: Outcome, ended: Run)
    requires
        agrees(a, ended),
        agrees(b, ended),
    ensures
        a == b,
{
}

} // verus!
