//! Witness values that may not be known yet.

use crate::field::{field_add, FieldElement};
use vstd::prelude::*;

verus! {

/// A witness value: a field element, or a placeholder for one that has not
/// been supplied (as while only the shape of a circuit is being laid out).
#[derive(Clone, Copy, Debug, PartialEq, Eq)]
pub enum Value {
    Known(FieldElement),
    Unknown,
}

/// Sum of two optional numbers in the field: unknown as soon as either is.
pub open spec fn value_add(a: Option<nat>, b: Option<nat>) -> Option<nat> {
    match (a, b) {
        (Some(x), Some(y)) => Some(field_add(x, y)),
        _ => None,
    }
}

impl View for Value {
    type V = Option<nat>;

    /// The number the value stands for, `None` while it is unknown.
    open spec fn view(&self) -> Option<nat> {
        match *self {
            Value::Known(v) => Some(v@),
            Value::Unknown => None,
        }
    }
}

impl Value {
    /// A value that is known.
    pub fn known(v: FieldElement) -> (r: Value)
        ensures
            r == Value::Known(v),
    {
        Value::Known(v)
    }

    /// The placeholder for a value that is not known.
    pub fn unknown() -> (r: Value)
        ensures
            r == Value::Unknown,
    {
        Value::Unknown
    }

    /// Whether the value is known.
    pub fn is_known(&self) -> (r: bool)
        ensures
            r == self@.is_some(),
    {
        match self {
            Value::Known(_) => true,
            Value::Unknown => false,
        }
    }

    /// The sum of two values, unknown as soon as either operand is.
    pub fn add(&self, other: &Value) -> (r: Value)
        ensures
            r@ == value_add(self@, other@),
    {
        match (self, other) {
            (Value::Known(a), Value::Known(b)) => Value::Known(a.add(b)),
            _ => Value::Unknown,
        }
    }
}

} // verus!
