//! What a program means when its command trees are carried out directly,
//! without bytecode: the yardstick for the compiler.

use vstd::prelude::*;
use crate::arith::{apply_operator, Operator};
use crate::ast::Ast;
use crate::compiler::Definition;
use crate::fault::FaultKind;
use crate::native::native_effect;
use crate::stack::{bool_at, without_top, Store};
use crate::value::Value;

verus! {

/// What carrying out commands has come to.
pub enum Outcome {
    /// The commands were carried out and left this store.
    Done(Store),
    /// A command faulted; the store is as it was before that command.
    Fault(FaultKind, Store),
    /// The calls and loop rounds allowed were used up; the store is as it was
    /// when the next call or round was due.
    OutOfFuel(Store),
}

/// The store with `v` pushed.
pub open spec fn pushed(s: Store, v: Value) -> Store {
    Store { stack: s.stack.push(v), ..s }
}

/// The store without its topmost value.
pub open spec fn popped(s: Store) -> Store {
    Store { stack: without_top(s.stack, 1), ..s }
}

/// What an arithmetic command makes of a store.
pub open spec fn eval_operator(op: Operator, s: Store) -> Outcome {
    match apply_operator(op, s.stack) {
        Err(k) => Outcome::Fault(k, s),
        Ok(stack) => Outcome::Done(Store { stack, ..s }),
    }
}

/// Carries out one command on a store, reading the command tree itself.
///
/// A literal pushes its value. A name runs what it stands for: a built-in
/// routine takes effect, the commands of a user routine are carried out. A
/// conditional takes a boolean off the stack and carries out one of its
/// branches. A loop carries out its body, takes a boolean off the stack and
/// starts over if it is true. `fuel` bounds how deep calls and loop rounds may
/// nest, so that the function is defined on programs that never end.
pub open spec fn eval_command(env: Map<Seq<char>, Definition>, c: Ast, s: Store, fuel: nat) -> Outcome
    decreases fuel, c,
{
    match c {
        Ast::Number(n) => Outcome::Done(pushed(s, Value::Number(n))),
        Ast::Bool(b) => Outcome::Done(pushed(s, Value::Bool(b))),
        Ast::Text(t) => Outcome::Done(pushed(s, Value::Text(t))),
        Ast::Add => eval_operator(Operator::Add, s),
        Ast::Sub => eval_operator(Operator::Sub, s),
        Ast::Mul => eval_operator(Operator::Mul, s),
        Ast::Div => eval_operator(Operator::Div, s),
        Ast::Identifier(name) => if !env.contains_key(name) {
            Outcome::Fault(FaultKind::UnknownRoutine, s)
        } else {
            match env[name] {
                Definition::Native(n) => match native_effect(n, s) {
                    Err(k) => Outcome::Fault(k, s),
                    Ok(after) => Outcome::Done(after),
                },
                Definition::User(body) => if fuel == 0 {
                    Outcome::OutOfFuel(s)
                } else {
                    eval_commands(env, body, s, (fuel - 1) as nat)
                },
            }
        },
        Ast::If(then, otherwise) => match bool_at(s.stack, 0) {
            Err(k) => Outcome::Fault(k, s),
            Ok(b) => eval_commands(
                env,
                if b {
                    then
                } else {
                    otherwise
                },
                popped(s),
                fuel,
            ),
        },
        Ast::While(body) => match eval_commands(env, body, s, fuel) {
            Outcome::Done(after) => match bool_at(after.stack, 0) {
                Err(k) => Outcome::Fault(k, after),
                Ok(again) => if !again {
                    Outcome::Done(popped(after))
                } else if fuel == 0 {
                    Outcome::OutOfFuel(popped(after))
                } else {
                    eval_command(env, c, popped(after), (fuel - 1) as nat)
                },
            },
            other => other,
        },
    }
}

/// Carries out commands one after the other, up to the first that does not
/// end well.
pub open spec fn eval_commands(
    env: Map<Seq<char>, Definition>,
    cmds: Seq<Ast>,
    s: Store,
    fuel: nat,
) -> Outcome
    decreases fuel, cmds,
{
    if cmds.len() == 0 {
        Outcome::Done(s)
    } else {
        match eval_command(env, cmds.first(), s, fuel) {
            Outcome::Done(after) => eval_commands(env, cmds.drop_first(), after, fuel),
            other => other,
        }
    }
}

/// Runs the routine `entry` on a store, as a call of it would.
pub open spec fn eval_routine(
    env: Map<Seq<char>, Definition>,
    entry: Seq<char>,
    s: Store,
    fuel: nat,
) -> Outcome {
    eval_command(env, Ast::Identifier(entry), s, fuel)
}

} // verus!
