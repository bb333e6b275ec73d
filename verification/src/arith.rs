//! Arithmetic on 32-bit signed integers: wrapping, with division rounded
//! toward zero.

use vstd::prelude::*;
use crate::fault::FaultKind;
use crate::stack::{number_at, without_top};
use crate::value::Value;

verus! {

/// The four arithmetic operations of the language.
#[derive(Debug, Clone, Copy, PartialEq, Eq, Structural)]
pub enum Operator {
    Add,
    Sub,
    Mul,
    Div,
}

/// The 32-bit signed integer that is congruent to `x` modulo 2^32: what is
/// left of a result that does not fit. Arithmetic in this language wraps
/// around; it never faults on overflow.
pub open spec fn wrap(x: int) -> i32 {
    let m = x % 0x1_0000_0000;
    if m > i32::MAX {
        (m - 0x1_0000_0000) as i32
    } else {
        m as i32
    }
}

/// The quotient of `a` by `b`, rounded toward zero.
pub open spec fn truncated_quotient(a: int, b: int) -> int
    recommends
        b != 0,
{
    if a >= 0 {
        if b > 0 {
            a / b
        } else {
            -(a / (-b))
        }
    } else {
        if b > 0 {
            -((-a) / b)
        } else {
            (-a) / (-b)
        }
    }
}

/// The result of `left op right`: the wrapped sum, difference or product, or
/// the wrapped quotient rounded toward zero, and a fault where the divisor is
/// zero.
pub open spec fn operate(op: Operator, left: i32, right: i32) -> Result<i32, FaultKind> {
    match op {
        Operator::Add => Ok(wrap(left + right)),
        Operator::Sub => Ok(wrap(left - right)),
        Operator::Mul => Ok(wrap(left * right)),
        Operator::Div => if right == 0 {
            Err(FaultKind::DivisionByZero)
        } else {
            Ok(wrap(truncated_quotient(left as int, right as int)))
        },
    }
}

/// The stack after an arithmetic instruction. The right-hand operand is the
/// topmost value, the left-hand operand lies below it; both are replaced by
/// the result. Each must be a number, the topmost being looked at first.
pub open spec fn apply_operator(op: Operator, stack: Seq<Value>) -> Result<Seq<Value>, FaultKind> {
    match number_at(stack, 0) {
        Err(k) => Err(k),
        Ok(right) => match number_at(stack, 1) {
            Err(k) => Err(k),
            Ok(left) => match operate(op, left, right) {
                Err(k) => Err(k),
                Ok(v) => Ok(without_top(stack, 2).push(Value::Number(v))),
            },
        },
    }
}

/// Computes `left op right`.
pub fn compute(op: Operator, left: i32, right: i32) -> (r: Result<i32, FaultKind>)
    ensures
        r == operate(op, left, right),
{
    match op {
        Operator::Add => Ok(left.wrapping_add(right)),
        Operator::Sub => Ok(left.wrapping_sub(right)),
        Operator::Mul => Ok(left.wrapping_mul(right)),
        Operator::Div => {
            if right == 0 {
                Err(FaultKind::DivisionByZero)
            } else {
                match left.checked_div(right) {
                    Some(q) => {
                        proof {
                            lemma_quotient_bounds(left as int, right as int);
                        }
                        Ok(q)
                    },
                    None => {
                        proof {
                            lemma_quotient_bounds(left as int, right as int);
                        }
                        Ok(i32::MIN)
                    },
                }
            }
        },
    }
}

/// `left + right`, wrapped.
pub fn sum(left: i32, right: i32) -> (r: Result<i32, FaultKind>)
    ensures
        r == operate(Operator::Add, left, right),
{
    compute(Operator::Add, left, right)
}

/// `left - right`, wrapped.
pub fn difference(left: i32, right: i32) -> (r: Result<i32, FaultKind>)
    ensures
        r == operate(Operator::Sub, left, right),
{
    compute(Operator::Sub, left, right)
}

/// `left * right`, wrapped.
pub fn product(left: i32, right: i32) -> (r: Result<i32, FaultKind>)
    ensures
        r == operate(Operator::Mul, left, right),
{
    compute(Operator::Mul, left, right)
}

/// `left / right`, rounded toward zero and wrapped, or the fault of a
/// division by zero.
pub fn quotient(left: i32, right: i32) -> (r: Result<i32, FaultKind>)
    ensures
        r == operate(Operator::Div, left, right),
{
    compute(Operator::Div, left, right)
}

/// The quotient rounded toward zero is no larger in size than the dividend.
pub proof fn lemma_quotient_bounds(a: int, b: int)
    requires
        b != 0,
    ensures
        a >= 0 ==> -a <= truncated_quotient(a, b) <= a,
        a < 0 ==> a <= truncated_quotient(a, b) <= -a,
        a == 0 ==> truncated_quotient(a, b) == 0,
{
    let x = if a >= 0 { a } else { -a };
    let d = if b > 0 { b } else { -b };
    assert(0 <= x / d <= x) by (nonlinear_arith)
        requires
            x >= 0,
            d > 0,
    ;
}

/// With `a` below `b` on top of the stack, division leaves `a / b` rounded
/// toward zero and subtraction leaves `a - b`, in place of the two.
///
/// Rounded toward zero means: the quotient times the divisor falls short of
/// the dividend by a remainder that is smaller in size than the divisor and
/// has the sign of the dividend. Only the quotient of the least number by -1
/// does not fit and wraps around, as does a difference that does not fit.
pub proof fn lemma_division_and_subtraction(rest: Seq<Value>, a: i32, b: i32)
    requires
        b != 0,
    ensures
        ({
            let stack = rest.push(Value::Number(a)).push(Value::Number(b));
            let q = truncated_quotient(a as int, b as int);
            let r = a - q * b;
            &&& (a >= 0 ==> 0 <= r)
            &&& (a <= 0 ==> r <= 0)
            &&& (b > 0 ==> -b < r < b)
            &&& (b < 0 ==> b < r < -b)
            &&& !(a == i32::MIN && b == -1) ==> i32::MIN <= q <= i32::MAX && apply_operator(
                Operator::Div,
                stack,
            ) == Ok::<Seq<Value>, FaultKind>(rest.push(Value::Number(q as i32)))
            &&& i32::MIN <= a - b <= i32::MAX ==> apply_operator(Operator::Sub, stack) == Ok::<
                Seq<Value>,
                FaultKind,
            >(rest.push(Value::Number((a - b) as i32)))
        }),
{
    let stack = rest.push(Value::Number(a)).push(Value::Number(b));
    assert(without_top(stack, 2) =~= rest);
    assert(number_at(stack, 0) == Ok::<i32, FaultKind>(b));
    assert(number_at(stack, 1) == Ok::<i32, FaultKind>(a));
    lemma_quotient_bounds(a as int, b as int);
    let x: int = if a >= 0 { a as int } else { -(a as int) };
    let d: int = if b > 0 { b as int } else { -(b as int) };
    assert(0 <= x - (x / d) * d < d && x / d >= 0) by (nonlinear_arith)
        requires
            x >= 0,
            d > 0,
    ;
    let q = truncated_quotient(a as int, b as int);
    assert(a - q * b == if a >= 0 { x - (x / d) * d } else { -(x - (x / d) * d) }) by (nonlinear_arith)
        requires
            x == (if a >= 0 { a as int } else { -(a as int) }),
            d == (if b > 0 { b as int } else { -(b as int) }),
            b != 0,
            q == (if (a >= 0) == (b > 0) { x / d } else { -(x / d) }),
    ;
    let k = x / d;
    if d >= 2 {
        assert(k * 2 <= k * d) by (nonlinear_arith)
            requires
                k >= 0,
                d >= 2,
        ;
    }
}

} // verus!
