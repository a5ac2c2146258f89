//! The runtime value model: a closed set of value kinds with the coercion
//! and truthiness rules every opcode goes through. `as_number` and
//! `is_truthy` are the single source of truth for the numeric and boolean
//! reading of a value; the machine never re-derives a coercion of its own.

use vstd::prelude::*;
use vstd::string::*;
use crate::num::{num_add_spec, num_eq_spec, num_gt_spec, num_lt_spec, num_truthy_spec, num_wf, Num};
use crate::text::{num_str_spec, num_to_string, parse_num, parse_num_spec};

verus! {

/// A runtime value: a number, a text, or the absence value `Nil`.
#[derive(Debug, Clone)]
pub enum Value {
    Number(Num),
    Str(String),
    Nil,
}

/// The mathematical shape of a value: numbers as themselves, text as its
/// character sequence.
pub enum ValueView {
    Number(Num),
    Str(Seq<char>),
    Nil,
}

impl View for Value {
    type V = ValueView;

    open spec fn view(&self) -> ValueView {
        match self {
            Value::Number(n) => ValueView::Number(*n),
            Value::Str(s) => ValueView::Str(s@),
            Value::Nil => ValueView::Nil,
        }
    }
}

/// Any number held in a value stays in the representable range.
pub open spec fn value_wf(v: ValueView) -> bool {
    match v {
        ValueView::Number(n) => num_wf(n),
        _ => true,
    }
}

/// The numeric reading of a value: numbers read as themselves, text is
/// parsed (unparsable text reads as zero), and `Nil` reads as zero.
pub open spec fn as_number_spec(v: ValueView) -> Num {
    match v {
        ValueView::Number(n) => n,
        ValueView::Str(s) => parse_num_spec(s),
        ValueView::Nil => Num::Finite(0),
    }
}

/// Truthiness: a number is truthy iff it is greater than zero, text iff it
/// is non-empty, and `Nil` never.
pub open spec fn is_truthy_spec(v: ValueView) -> bool {
    match v {
        ValueView::Number(n) => num_truthy_spec(n),
        ValueView::Str(s) => s.len() > 0,
        ValueView::Nil => false,
    }
}

/// The text a value prints as: numbers in their decimal rendering, text as
/// itself, and `Nil` as empty text.
pub open spec fn value_str_spec(v: ValueView) -> Seq<char> {
    match v {
        ValueView::Number(n) => num_str_spec(n),
        ValueView::Str(s) => s,
        ValueView::Nil => Seq::empty(),
    }
}

/// Addition is polymorphic: two numbers add numerically; any other
/// combination concatenates the textual renderings, left operand first.
pub open spec fn value_add_spec(a: ValueView, b: ValueView) -> ValueView {
    match (a, b) {
        (ValueView::Number(x), ValueView::Number(y)) => ValueView::Number(num_add_spec(x, y)),
        _ => ValueView::Str(value_str_spec(a) + value_str_spec(b)),
    }
}

/// Equality as the comparison opcode sees it: two texts compare as texts,
/// anything else compares numerically (so `NaN` is equal to nothing).
pub open spec fn value_eq_spec(a: ValueView, b: ValueView) -> bool {
    match (a, b) {
        (ValueView::Str(x), ValueView::Str(y)) => x == y,
        _ => num_eq_spec(as_number_spec(a), as_number_spec(b)),
    }
}

/// Strict greater-than on the numeric readings.
pub open spec fn value_gt_spec(a: ValueView, b: ValueView) -> bool {
    num_gt_spec(as_number_spec(a), as_number_spec(b))
}

/// Strict less-than on the numeric readings.
pub open spec fn value_lt_spec(a: ValueView, b: ValueView) -> bool {
    num_lt_spec(as_number_spec(a), as_number_spec(b))
}

impl Value {
    /// The numeric reading of this value; total, never a fault.
    pub fn as_number(&self) -> (r: Num)
        requires
            value_wf(self@),
        ensures
            r == as_number_spec(self@),
            num_wf(r),
    {
        match self {
            Value::Number(n) => *n,
            Value::Str(s) => parse_num(s.as_str()),
            Value::Nil => Num::Finite(0),
        }
    }

    /// The boolean reading of this value.
    pub fn is_truthy(&self) -> (r: bool)
        ensures
            r == is_truthy_spec(self@),
    {
        match self {
            Value::Number(n) => crate::num::num_gt(*n, Num::Finite(0)),
            Value::Str(s) => s.as_str().unicode_len() > 0,
            Value::Nil => false,
        }
    }

    /// The text this value prints as.
    pub fn to_text(&self) -> (r: String)
        requires
            value_wf(self@),
        ensures
            r@ == value_str_spec(self@),
    {
        match self {
            Value::Number(n) => num_to_string(*n),
            Value::Str(s) => s.clone(),
            Value::Nil => String::new(),
        }
    }

    /// An exact copy; unlike a derived clone, its contract says so.
    pub fn duplicate(&self) -> (r: Value)
        ensures
            r@ == self@,
    {
        match self {
            Value::Number(n) => Value::Number(*n),
            Value::Str(s) => Value::Str(s.clone()),
            Value::Nil => Value::Nil,
        }
    }
}

/// Law: addition is total and left-biased. A number and a text — in
/// either order — concatenate to a text, the number rendered in its
/// decimal form on the side it stood on; no combination of operands
/// faults (the executable `value_add` has no precondition beyond
/// well-formedness).
pub proof fn lemma_concat_left_biased(n: Num, s: Seq<char>)
    requires
        num_wf(n),
    ensures
        value_add_spec(ValueView::Number(n), ValueView::Str(s)) == ValueView::Str(
            num_str_spec(n) + s,
        ),
        value_add_spec(ValueView::Str(s), ValueView::Number(n)) == ValueView::Str(
            s + num_str_spec(n),
        ),
{
}

/// Polymorphic addition: numeric on two numbers, left-biased textual
/// concatenation on everything else. Total: every combination of operands
/// yields a value.
pub fn value_add(a: Value, b: Value) -> (r: Value)
    requires
        value_wf(a@),
        value_wf(b@),
    ensures
        r@ == value_add_spec(a@, b@),
        value_wf(r@),
{
    match (a, b) {
        (Value::Number(x), Value::Number(y)) => Value::Number(crate::num::num_add(x, y)),
        (a, b) => {
            let mut s = a.to_text();
            let t = b.to_text();
            s.append(t.as_str());
            Value::Str(s)
        },
    }
}

/// Equality test as a value: pushes the numbers one and zero.
pub fn value_eq(a: &Value, b: &Value) -> (r: bool)
    requires
        value_wf(a@),
        value_wf(b@),
    ensures
        r == value_eq_spec(a@, b@),
{
    match (a, b) {
        (Value::Str(x), Value::Str(y)) => <String as PartialEq>::eq(x, y),
        (a, b) => crate::num::num_eq(a.as_number(), b.as_number()),
    }
}

/// Strict greater-than on the numeric readings.
pub fn value_gt(a: &Value, b: &Value) -> (r: bool)
    requires
        value_wf(a@),
        value_wf(b@),
    ensures
        r == value_gt_spec(a@, b@),
{
    crate::num::num_gt(a.as_number(), b.as_number())
}

/// Strict less-than on the numeric readings.
pub fn value_lt(a: &Value, b: &Value) -> (r: bool)
    requires
        value_wf(a@),
        value_wf(b@),
    ensures
        r == value_lt_spec(a@, b@),
{
    crate::num::num_lt(a.as_number(), b.as_number())
}

} // verus!
