//! Dynamically typed field values.
use crate::datetime::DateTime;
use crate::number::{decimal_units, Number};
use vstd::prelude::*;

verus! {

/// A field value: text, a number, a date and time, or several values of one key.
#[derive(Debug)]
pub enum Value {
    Text(Vec<u8>),
    Number(Number),
    DateTime(DateTime),
    Multi(Vec<Value>),
}

/// What a value holds, with text as a byte sequence. An item of a `Multi` that is itself
/// a `Multi` is seen as an empty one: records never build such values.
pub enum ValueView {
    Text(Seq<u8>),
    Number(Number),
    DateTime(DateTime),
    Multi(Seq<ValueView>),
}

pub open spec fn scalar_view(v: Value) -> ValueView {
    match v {
        Value::Text(t) => ValueView::Text(t@),
        Value::Number(n) => ValueView::Number(n),
        Value::DateTime(d) => ValueView::DateTime(d),
        Value::Multi(_) => ValueView::Multi(Seq::empty()),
    }
}

impl View for Value {
    type V = ValueView;

    open spec fn view(&self) -> ValueView {
        match self {
            Value::Multi(items) => ValueView::Multi(
                Seq::new(items@.len(), |i: int| scalar_view(items@[i])),
            ),
            _ => scalar_view(*self),
        }
    }
}

/// What the raw text `t` becomes: a number where the whole trimmed text is one, else
/// the text itself. Numbers are exact decimals (see `decimal_units`): a text that a float
/// parser would take but that has an exponent (`1e5`), `inf` or `nan`, or more than 18
/// digits on either side of the point, stays text.
pub open spec fn text_value(t: Seq<u8>) -> ValueView {
    match decimal_units(t) {
        Some(u) => ValueView::Number(Number { units: u as i128 }),
        None => ValueView::Text(t),
    }
}

impl ValueView {
    /// How many values this one holds: the length of a `Multi`, else one.
    pub open spec fn count(self) -> nat {
        match self {
            ValueView::Multi(items) => items.len(),
            _ => 1,
        }
    }

    /// The `i`-th value held: an item of a `Multi`, else the value itself.
    pub open spec fn item(self, i: int) -> ValueView {
        match self {
            ValueView::Multi(items) => items[i],
            _ => self,
        }
    }
}

impl Value {
    /// How many values this one holds: the length of a `Multi`, else one.
    pub open spec fn count(self) -> nat {
        match self {
            Value::Multi(items) => items@.len(),
            _ => 1,
        }
    }

    /// The `i`-th value held: an item of a `Multi`, else the value itself.
    pub open spec fn item(self, i: int) -> Value {
        match self {
            Value::Multi(items) => items@[i],
            _ => self,
        }
    }

    /// Promotes raw text to a number where the trimmed text is a decimal number.
    pub fn from_text(t: Vec<u8>) -> (r: Value)
        ensures
            r@ == text_value(t@),
            !(r is Multi),
    {
        match Number::parse(t.as_slice()) {
            Some(n) => Value::Number(n),
            None => Value::Text(t),
        }
    }

    pub fn len(&self) -> (r: usize)
        ensures
            r == self.count(),
    {
        match self {
            Value::Multi(items) => items.len(),
            _ => 1,
        }
    }

    /// The `i`-th value held (see `item`).
    pub fn at(&self, i: usize) -> (r: &Value)
        requires
            i < self.count(),
        ensures
            *r == self.item(i as int),
            scalar_view(*r) == self@.item(i as int),
    {
        match self {
            Value::Multi(items) => &items[i],
            _ => self,
        }
    }
}

impl Default for Value {
    fn default() -> (r: Value)
        ensures
            r matches Value::Text(t) && t@.len() == 0,
    {
        Value::Text(Vec::new())
    }
}

} // verus!
