//! Scalar column values and their mathematical view.

use vstd::prelude::*;

verus! {

/// A scalar column value carried by a change event or stored in a record.
#[derive(Debug)]
pub enum ScalarValue {
    Null,
    Number(i64),
    Text(String),
    Boolean(bool),
}

/// Mathematical view of a [`ScalarValue`]: numbers become unbounded
/// integers and text becomes a character sequence.
pub enum ScalarV {
    Null,
    Number(int),
    Text(Seq<char>),
    Boolean(bool),
}

impl View for ScalarValue {
    type V = ScalarV;

    open spec fn view(&self) -> ScalarV {
        match self {
            ScalarValue::Null => ScalarV::Null,
            ScalarValue::Number(n) => ScalarV::Number(*n as int),
            ScalarValue::Text(s) => ScalarV::Text(s@),
            ScalarValue::Boolean(b) => ScalarV::Boolean(*b),
        }
    }
}

impl Clone for ScalarValue {
    fn clone(&self) -> (r: Self)
        ensures
            r@ == self@,
    {
        match self {
            ScalarValue::Null => ScalarValue::Null,
            ScalarValue::Number(n) => ScalarValue::Number(*n),
            ScalarValue::Text(s) => ScalarValue::Text(s.clone()),
            ScalarValue::Boolean(b) => ScalarValue::Boolean(*b),
        }
    }
}

} // verus!
