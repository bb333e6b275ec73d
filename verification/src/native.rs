//! The built-in routines and what each does to the stack and the output.

use vstd::prelude::*;
use crate::fault::FaultKind;
use crate::stack::{bool_at, number_at, value_at, without_top, Store};
use crate::value::Value;

verus! {

/// The built-in routines. The set is fixed.
#[derive(Debug, Clone, Copy, PartialEq, Eq, Structural)]
pub enum NativeRoutine {
    Print,
    Drop,
    Dup,
    Swap,
    Rot,
    Over,
    Equals,
    Not,
    Or,
    And,
    GreaterThan,
    GreaterEqual,
    LessThan,
    LessEqual,
    Assert,
}

/// The stack after a built-in routine that takes two numbers, the right-hand
/// one on top, and leaves the boolean `holds(left, right)`.
pub open spec fn relate(stack: Seq<Value>, holds: spec_fn(int, int) -> bool) -> Result<
    Seq<Value>,
    FaultKind,
> {
    match number_at(stack, 0) {
        Err(k) => Err(k),
        Ok(right) => match number_at(stack, 1) {
            Err(k) => Err(k),
            Ok(left) => Ok(
                without_top(stack, 2).push(Value::Bool(holds(left as int, right as int))),
            ),
        },
    }
}

/// The stack after a built-in routine that takes two booleans and leaves the
/// boolean `join(top, below)`.
pub open spec fn connect(stack: Seq<Value>, join: spec_fn(bool, bool) -> bool) -> Result<
    Seq<Value>,
    FaultKind,
> {
    match bool_at(stack, 0) {
        Err(k) => Err(k),
        Ok(a) => match bool_at(stack, 1) {
            Err(k) => Err(k),
            Ok(b) => Ok(without_top(stack, 2).push(Value::Bool(join(a, b)))),
        },
    }
}

/// The stack after a built-in routine other than `PRINT`, or the fault it
/// ends in. Operands are looked at from the top down, and the first one that
/// is missing or of the wrong variant decides the fault.
pub open spec fn native_stack(n: NativeRoutine, stack: Seq<Value>) -> Result<
    Seq<Value>,
    FaultKind,
> {
    match n {
        NativeRoutine::Print | NativeRoutine::Drop => match value_at(stack, 0) {
            Err(k) => Err(k),
            Ok(_) => Ok(without_top(stack, 1)),
        },
        NativeRoutine::Dup => match value_at(stack, 0) {
            Err(k) => Err(k),
            Ok(v) => Ok(stack.push(v)),
        },
        NativeRoutine::Swap => match value_at(stack, 0) {
            Err(k) => Err(k),
            Ok(a) => match value_at(stack, 1) {
                Err(k) => Err(k),
                Ok(b) => Ok(without_top(stack, 2).push(a).push(b)),
            },
        },
        NativeRoutine::Rot => match value_at(stack, 0) {
            Err(k) => Err(k),
            Ok(a) => match value_at(stack, 1) {
                Err(k) => Err(k),
                Ok(b) => match value_at(stack, 2) {
                    Err(k) => Err(k),
                    Ok(c) => Ok(without_top(stack, 3).push(b).push(a).push(c)),
                },
            },
        },
        NativeRoutine::Over => match value_at(stack, 0) {
            Err(k) => Err(k),
            Ok(a) => match value_at(stack, 1) {
                Err(k) => Err(k),
                Ok(b) => Ok(without_top(stack, 2).push(b).push(a).push(b)),
            },
        },
        NativeRoutine::Equals => match value_at(stack, 0) {
            Err(k) => Err(k),
            Ok(a) => match value_at(stack, 1) {
                Err(k) => Err(k),
                Ok(b) => Ok(without_top(stack, 2).push(Value::Bool(a == b))),
            },
        },
        NativeRoutine::Not => match bool_at(stack, 0) {
            Err(k) => Err(k),
            Ok(b) => Ok(without_top(stack, 1).push(Value::Bool(!b))),
        },
        NativeRoutine::Or => connect(stack, |a: bool, b: bool| a || b),
        NativeRoutine::And => connect(stack, |a: bool, b: bool| a && b),
        NativeRoutine::GreaterThan => relate(stack, |left: int, right: int| left > right),
        NativeRoutine::GreaterEqual => relate(stack, |left: int, right: int| left >= right),
        NativeRoutine::LessThan => relate(stack, |left: int, right: int| left < right),
        NativeRoutine::LessEqual => relate(stack, |left: int, right: int| left <= right),
        NativeRoutine::Assert => match bool_at(stack, 0) {
            Err(k) => Err(k),
            Ok(b) => if b {
                Ok(without_top(stack, 1))
            } else {
                Err(FaultKind::AssertionFailed)
            },
        },
    }
}

/// What a built-in routine makes of a store, or the fault it ends in.
/// `PRINT` appends the topmost value to the output; no other routine touches
/// the output.
pub open spec fn native_effect(n: NativeRoutine, s: Store) -> Result<Store, FaultKind> {
    match native_stack(n, s.stack) {
        Err(k) => Err(k),
        Ok(stack) => Ok(
            Store {
                stack,
                output: if n == NativeRoutine::Print {
                    s.output.push(s.stack.last())
                } else {
                    s.output
                },
            },
        ),
    }
}

/// The name under which a built-in routine stands in the routine table.
pub open spec fn native_name(n: NativeRoutine) -> Seq<char> {
    match n {
        NativeRoutine::Print => "PRINT"@,
        NativeRoutine::Drop => "DROP"@,
        NativeRoutine::Dup => "DUP"@,
        NativeRoutine::Swap => "SWAP"@,
        NativeRoutine::Rot => "ROT"@,
        NativeRoutine::Over => "OVER"@,
        NativeRoutine::Equals => "EQUALS"@,
        NativeRoutine::Not => "NOT"@,
        NativeRoutine::Or => "OR"@,
        NativeRoutine::And => "AND"@,
        NativeRoutine::GreaterThan => "GREATER-THAN"@,
        NativeRoutine::GreaterEqual => "GREATER-EQUAL"@,
        NativeRoutine::LessThan => "LESS-THAN"@,
        NativeRoutine::LessEqual => "LESS-EQUAL"@,
        NativeRoutine::Assert => "ASSERT"@,
    }
}

/// The built-in routines in the order in which they enter the routine table.
pub open spec fn native_list() -> Seq<NativeRoutine> {
    seq![
        NativeRoutine::Print,
        NativeRoutine::Drop,
        NativeRoutine::Dup,
        NativeRoutine::Swap,
        NativeRoutine::Rot,
        NativeRoutine::Over,
        NativeRoutine::Equals,
        NativeRoutine::Not,
        NativeRoutine::Or,
        NativeRoutine::And,
        NativeRoutine::GreaterThan,
        NativeRoutine::GreaterEqual,
        NativeRoutine::LessThan,
        NativeRoutine::LessEqual,
        NativeRoutine::Assert,
    ]
}

impl NativeRoutine {
    /// The name under which the routine stands in the routine table.
    pub fn name(self) -> (r: &'static str)
        ensures
            r@ == native_name(self),
    {
        match self {
            NativeRoutine::Print => "PRINT",
            NativeRoutine::Drop => "DROP",
            NativeRoutine::Dup => "DUP",
            NativeRoutine::Swap => "SWAP",
            NativeRoutine::Rot => "ROT",
            NativeRoutine::Over => "OVER",
            NativeRoutine::Equals => "EQUALS",
            NativeRoutine::Not => "NOT",
            NativeRoutine::Or => "OR",
            NativeRoutine::And => "AND",
            NativeRoutine::GreaterThan => "GREATER-THAN",
            NativeRoutine::GreaterEqual => "GREATER-EQUAL",
            NativeRoutine::LessThan => "LESS-THAN",
            NativeRoutine::LessEqual => "LESS-EQUAL",
            NativeRoutine::Assert => "ASSERT",
        }
    }

    /// All built-in routines, in the order in which they enter the routine
    /// table.
    pub fn all() -> (r: Vec<NativeRoutine>)
        ensures
            r@ == native_list(),
    {
        let mut r: Vec<NativeRoutine> = Vec::new();
        r.push(NativeRoutine::Print);
        r.push(NativeRoutine::Drop);
        r.push(NativeRoutine::Dup);
        r.push(NativeRoutine::Swap);
        r.push(NativeRoutine::Rot);
        r.push(NativeRoutine::Over);
        r.push(NativeRoutine::Equals);
        r.push(NativeRoutine::Not);
        r.push(NativeRoutine::Or);
        r.push(NativeRoutine::And);
        r.push(NativeRoutine::GreaterThan);
        r.push(NativeRoutine::GreaterEqual);
        r.push(NativeRoutine::LessThan);
        r.push(NativeRoutine::LessEqual);
        r.push(NativeRoutine::Assert);
        assert(r@ =~= native_list());
        r
    }
}

} // verus!
