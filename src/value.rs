use vstd::prelude::*;

verus! {

/// A reference to an interned string: its index in the program's string
/// table and its length in characters.
#[derive(Debug, Clone, Copy, PartialEq, Eq, Structural)]
pub struct Str {
    pub string_index: usize,
    pub length: usize,
}

impl Str {
    pub fn new(string_index: usize, length: usize) -> (r: Self)
        ensures
            r.string_index == string_index,
            r.length == length,
    {
        Str { string_index, length }
    }
}

/// A runtime value. A float is held as its IEEE-754 binary64 bit pattern:
/// this library never computes with floats itself (see `FloatRequest`).
#[derive(Debug, Clone, PartialEq)]
pub enum Value {
    I64(i64),
    F64(u64),
    Bool(bool),
    String(Str),
    RawString(String),
}

/// Structural equality of two values: values of different variants are
/// unequal (deliberately not an error, so that any two values can be
/// compared), interned strings are equal when they share an index, which
/// interning makes the same as having the same text. Two floats
/// are compared by IEEE-754 rules, which this library leaves to its caller:
/// there the result is `None`.
pub open spec fn spec_equals(a: Value, b: Value) -> Option<bool> {
    match (a, b) {
        (Value::I64(x), Value::I64(y)) => Some(x == y),
        (Value::F64(_), Value::F64(_)) => None,
        (Value::Bool(x), Value::Bool(y)) => Some(x == y),
        (Value::String(x), Value::String(y)) => Some(x.string_index == y.string_index),
        (Value::RawString(x), Value::RawString(y)) => Some(x@ == y@),
        _ => Some(false),
    }
}

impl Value {
    /// Structural equality; `None` for two floats.
    pub fn equals(&self, other: &Self) -> (r: Option<bool>)
        ensures
            r == spec_equals(*self, *other),
    {
        match (self, other) {
            (Value::I64(x), Value::I64(y)) => Some(*x == *y),
            (Value::F64(_), Value::F64(_)) => None,
            (Value::Bool(x), Value::Bool(y)) => Some(*x == *y),
            (Value::String(x), Value::String(y)) => Some(x.string_index == y.string_index),
            (Value::RawString(x), Value::RawString(y)) => Some(*x == *y),
            _ => Some(false),
        }
    }

    /// A copy of the value.
    pub fn duplicate(&self) -> (r: Value)
        ensures
            r == *self,
    {
        match self {
            Value::I64(x) => Value::I64(*x),
            Value::F64(x) => Value::F64(*x),
            Value::Bool(x) => Value::Bool(*x),
            Value::String(s) => Value::String(*s),
            Value::RawString(s) => Value::RawString(s.clone()),
        }
    }
}

} // verus!
