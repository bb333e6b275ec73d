//! Runtime values: numbers, booleans and text.

use vstd::prelude::*;

verus! {

/// A runtime value as the specifications see it: a number is a 32-bit signed
/// integer, text is a sequence of characters.
pub enum Value {
    Number(i32),
    Bool(bool),
    Text(Seq<char>),
}

/// A runtime value of the stack machine. Text is immutable and compared by
/// its characters.
#[derive(Debug, PartialEq, Eq)]
pub enum CauchemarVMValue {
    Number(i32),
    Bool(bool),
    String(String),
}

impl View for CauchemarVMValue {
    type V = Value;

    open spec fn view(&self) -> Value {
        match self {
            CauchemarVMValue::Number(n) => Value::Number(*n),
            CauchemarVMValue::Bool(b) => Value::Bool(*b),
            CauchemarVMValue::String(s) => Value::Text(s@),
        }
    }
}

impl Clone for CauchemarVMValue {
    fn clone(&self) -> (r: Self)
        ensures
            r@ == self@,
    {
        match self {
            CauchemarVMValue::Number(n) => CauchemarVMValue::Number(*n),
            CauchemarVMValue::Bool(b) => CauchemarVMValue::Bool(*b),
            CauchemarVMValue::String(s) => CauchemarVMValue::String(s.clone()),
        }
    }
}

impl CauchemarVMValue {
    /// Whether two values are the same: of one variant and with equal
    /// contents. Values of different variants are never the same.
    pub fn same_as(&self, other: &CauchemarVMValue) -> (r: bool)
        ensures
            r == (self@ == other@),
    {
        match self {
            CauchemarVMValue::Number(a) => match other {
                CauchemarVMValue::Number(b) => *a == *b,
                _ => false,
            },
            CauchemarVMValue::Bool(a) => match other {
                CauchemarVMValue::Bool(b) => *a == *b,
                _ => false,
            },
            CauchemarVMValue::String(a) => match other {
                CauchemarVMValue::String(b) => *a == *b,
                _ => false,
            },
        }
    }
}

/// The values of a list, each by its view.
pub open spec fn values_of(v: Seq<CauchemarVMValue>) -> Seq<Value> {
    Seq::new(v.len(), |i: int| v[i]@)
}

} // verus!
