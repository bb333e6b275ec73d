//! The operand stack: reading operands from the top, with the fault that a
//! missing or ill-typed operand gives.

use vstd::prelude::*;
use crate::fault::FaultKind;
use crate::value::{values_of, CauchemarVMValue, Value};

verus! {

/// The value that lies `depth` places below the top of `stack` (0 is the
/// top), or the fault of an operation that needs a value there.
pub open spec fn value_at(stack: Seq<Value>, depth: int) -> Result<Value, FaultKind> {
    if depth < stack.len() {
        Ok(stack[stack.len() - 1 - depth])
    } else {
        Err(FaultKind::StackUnderflow)
    }
}

/// The number that lies `depth` places below the top of `stack`, or the fault
/// of an operation that needs a number there.
pub open spec fn number_at(stack: Seq<Value>, depth: int) -> Result<i32, FaultKind> {
    match value_at(stack, depth) {
        Ok(Value::Number(n)) => Ok(n),
        Ok(_) => Err(FaultKind::TypeMismatch),
        Err(k) => Err(k),
    }
}

/// The boolean that lies `depth` places below the top of `stack`, or the
/// fault of an operation that needs a boolean there.
pub open spec fn bool_at(stack: Seq<Value>, depth: int) -> Result<bool, FaultKind> {
    match value_at(stack, depth) {
        Ok(Value::Bool(b)) => Ok(b),
        Ok(_) => Err(FaultKind::TypeMismatch),
        Err(k) => Err(k),
    }
}

/// `stack` without its `count` topmost values.
pub open spec fn without_top(stack: Seq<Value>, count: int) -> Seq<Value> {
    stack.subrange(0, stack.len() - count)
}

/// What a run has built up: the operand stack, bottom first, and the values
/// printed so far, oldest first.
pub struct Store {
    pub stack: Seq<Value>,
    pub output: Seq<Value>,
}

/// Pushing a value pushes its view.
pub proof fn lemma_values_of_push(v: Seq<CauchemarVMValue>, x: CauchemarVMValue)
    ensures
        values_of(v.push(x)) == values_of(v).push(x@),
{
    assert(values_of(v.push(x)) =~= values_of(v).push(x@));
}

/// Cutting a stack cuts its view.
pub proof fn lemma_values_of_prefix(v: Seq<CauchemarVMValue>, len: int)
    requires
        0 <= len <= v.len(),
    ensures
        values_of(v.subrange(0, len)) == values_of(v).subrange(0, len),
{
    assert(values_of(v.subrange(0, len)) =~= values_of(v).subrange(0, len));
}

/// Reads the value `depth` places below the top of the stack.
pub fn peek_value(stack: &Vec<CauchemarVMValue>, depth: usize) -> (r: Result<
    &CauchemarVMValue,
    FaultKind,
>)
    ensures
        match r {
            Ok(v) => value_at(values_of(stack@), depth as int) == Ok::<Value, FaultKind>(v@),
            Err(k) => value_at(values_of(stack@), depth as int) == Err::<Value, FaultKind>(k),
        },
{
    if depth < stack.len() {
        Ok(&stack[stack.len() - 1 - depth])
    } else {
        Err(FaultKind::StackUnderflow)
    }
}

/// Reads the number `depth` places below the top of the stack.
pub fn peek_number(stack: &Vec<CauchemarVMValue>, depth: usize) -> (r: Result<i32, FaultKind>)
    ensures
        r == number_at(values_of(stack@), depth as int),
{
    match peek_value(stack, depth) {
        Ok(CauchemarVMValue::Number(n)) => Ok(*n),
        Ok(_) => Err(FaultKind::TypeMismatch),
        Err(k) => Err(k),
    }
}

/// Reads the boolean `depth` places below the top of the stack.
pub fn peek_bool(stack: &Vec<CauchemarVMValue>, depth: usize) -> (r: Result<bool, FaultKind>)
    ensures
        r == bool_at(values_of(stack@), depth as int),
{
    match peek_value(stack, depth) {
        Ok(CauchemarVMValue::Bool(b)) => Ok(*b),
        Ok(_) => Err(FaultKind::TypeMismatch),
        Err(k) => Err(k),
    }
}

/// Removes the `count` topmost values of the stack.
pub fn discard(stack: &mut Vec<CauchemarVMValue>, count: usize)
    requires
        count <= old(stack)@.len(),
    ensures
        values_of(final(stack)@) == without_top(values_of(old(stack)@), count as int),
        final(stack)@.len() == old(stack)@.len() - count,
{
    let keep = stack.len() - count;
    proof {
        lemma_values_of_prefix(stack@, keep as int);
    }
    stack.truncate(keep);
}

/// Takes the topmost value off the stack.
pub fn pop_value(stack: &mut Vec<CauchemarVMValue>) -> (v: CauchemarVMValue)
    requires
        old(stack)@.len() > 0,
    ensures
        value_at(values_of(old(stack)@), 0) == Ok::<Value, FaultKind>(v@),
        values_of(final(stack)@) == without_top(values_of(old(stack)@), 1),
        final(stack)@.len() == old(stack)@.len() - 1,
{
    proof {
        lemma_values_of_prefix(stack@, stack@.len() - 1);
    }
    stack.pop().unwrap()
}

/// Puts a value on top of the stack.
pub fn push_value(stack: &mut Vec<CauchemarVMValue>, value: CauchemarVMValue)
    ensures
        values_of(final(stack)@) == values_of(old(stack)@).push(value@),
        final(stack)@.len() == old(stack)@.len() + 1,
{
    proof {
        lemma_values_of_push(stack@, value);
    }
    stack.push(value);
}

} // verus!
