use vstd::prelude::*;
use vstd::string::StringExecFns;

use rustc_apfloat::ieee::Single;
use rustc_apfloat::Float;

use crate::object::{Object, ObjectType};

verus! {

// Numbers are IEEE 754 binary32 values, held as their bit patterns.

/// The binary32 sum of two numbers, rounded to nearest, ties to even.
pub uninterp spec fn f32_sum(a: u32, b: u32) -> u32;

/// The binary32 difference `a - b`, rounded to nearest, ties to even.
pub uninterp spec fn f32_difference(a: u32, b: u32) -> u32;

/// The binary32 product of two numbers, rounded to nearest, ties to even.
pub uninterp spec fn f32_product(a: u32, b: u32) -> u32;

/// The binary32 quotient `a / b`, rounded to nearest, ties to even.
pub uninterp spec fn f32_quotient(a: u32, b: u32) -> u32;

/// The binary32 value that `rustc_apfloat` reads from a text, if it reads one.
pub uninterp spec fn f32_from_decimal(text: Seq<char>) -> Option<u32>;

/// Relies on `rustc_apfloat`'s `Add` for `ieee::Single`: the correctly rounded sum.
#[verifier::external_body]
fn add_bits(a: u32, b: u32) -> (r: u32)
    ensures
        r == f32_sum(a, b),
{
    (Single::from_bits(a as u128) + Single::from_bits(b as u128)).value.to_bits() as u32
}

/// Relies on `rustc_apfloat`'s `Sub` for `ieee::Single`: the correctly rounded difference.
#[verifier::external_body]
fn sub_bits(a: u32, b: u32) -> (r: u32)
    ensures
        r == f32_difference(a, b),
{
    (Single::from_bits(a as u128) - Single::from_bits(b as u128)).value.to_bits() as u32
}

/// Relies on `rustc_apfloat`'s `Mul` for `ieee::Single`: the correctly rounded product.
#[verifier::external_body]
fn mul_bits(a: u32, b: u32) -> (r: u32)
    ensures
        r == f32_product(a, b),
{
    (Single::from_bits(a as u128) * Single::from_bits(b as u128)).value.to_bits() as u32
}

/// Relies on `rustc_apfloat`'s `Div` for `ieee::Single`: the correctly rounded
/// quotient; a zero divisor gives an infinity or NaN, as IEEE 754 says.
#[verifier::external_body]
fn div_bits(a: u32, b: u32) -> (r: u32)
    ensures
        r == f32_quotient(a, b),
{
    (Single::from_bits(a as u128) / Single::from_bits(b as u128)).value.to_bits() as u32
}

/// Relies on `rustc_apfloat`'s `FromStr` for `ieee::Single`: the binary32
/// value of a text (decimal digits with an optional fraction, as number
/// tokens are, rounded to nearest; it also reads signs, exponents, hex,
/// `inf` and `nan`), or an error for text it does not read.
#[verifier::external_body]
pub(crate) fn parse_number(text: &str) -> (r: Option<u32>)
    ensures
        r == f32_from_decimal(text@),
{
    match text.parse::<Single>() {
        Ok(v) => Some(v.to_bits() as u32),
        Err(_) => None,
    }
}

pub open spec fn is_nan(x: u32) -> bool {
    (x & 0x7f80_0000) == 0x7f80_0000 && (x & 0x007f_ffff) != 0
}

/// The place of a number on the real line: sign and magnitude. Both zeros
/// share the place zero; larger magnitudes lie further out.
pub open spec fn order_key(x: u32) -> int {
    if x & 0x8000_0000 != 0 {
        -((x & 0x7fff_ffff) as int)
    } else {
        (x & 0x7fff_ffff) as int
    }
}

/// IEEE 754 equality: NaN equals nothing, and the two zeros are equal.
pub open spec fn f32_eq(a: u32, b: u32) -> bool {
    !is_nan(a) && !is_nan(b) && order_key(a) == order_key(b)
}

/// IEEE 754 `a < b`: false whenever either side is NaN.
pub open spec fn f32_lt(a: u32, b: u32) -> bool {
    !is_nan(a) && !is_nan(b) && order_key(a) < order_key(b)
}

/// IEEE 754 negation: the sign bit flips.
pub open spec fn f32_neg(a: u32) -> u32 {
    a ^ 0x8000_0000
}

/// A runtime value.
#[derive(Clone, Debug, PartialEq)]
pub enum Value {
    VAL_BOOL(bool),
    VAL_NIL,
    VAL_NUMBER(u32),
    VAL_OBJECT(Object),
}

/// What a value is, mathematically: a string object is seen as its text.
pub enum ValueView {
    Bool(bool),
    Nil,
    Number(u32),
    Str(Seq<char>),
}

impl View for Value {
    type V = ValueView;

    open spec fn view(&self) -> ValueView {
        match self {
            Value::VAL_BOOL(b) => ValueView::Bool(*b),
            Value::VAL_NIL => ValueView::Nil,
            Value::VAL_NUMBER(n) => ValueView::Number(*n),
            Value::VAL_OBJECT(o) => ValueView::Str(o@),
        }
    }
}

/// The view of an optional value.
pub open spec fn opt_view(v: Option<Value>) -> Option<ValueView> {
    match v {
        Some(x) => Some(x@),
        None => None,
    }
}

/// The binary operators on numbers.
#[derive(Clone, Copy, Debug, PartialEq, Eq, Structural)]
pub enum BinaryOp {
    Add,
    Sub,
    Mul,
    Div,
    Greater,
    Less,
}

/// Only `nil` and `false` are falsey.
pub open spec fn is_falsey(v: ValueView) -> bool {
    v is Nil || v == ValueView::Bool(false)
}

/// Equality of values: same tag and equal contents; across tags, unequal.
pub open spec fn values_equal(a: ValueView, b: ValueView) -> bool {
    match (a, b) {
        (ValueView::Bool(x), ValueView::Bool(y)) => x == y,
        (ValueView::Nil, ValueView::Nil) => true,
        (ValueView::Number(x), ValueView::Number(y)) => f32_eq(x, y),
        (ValueView::Str(x), ValueView::Str(y)) => x == y,
        _ => false,
    }
}

/// The result of a binary operator on two numbers; `None` where either
/// operand is not a number.
pub open spec fn binary_result(op: BinaryOp, a: ValueView, b: ValueView) -> Option<ValueView> {
    match (a, b) {
        (ValueView::Number(x), ValueView::Number(y)) => Some(
            match op {
                BinaryOp::Add => ValueView::Number(f32_sum(x, y)),
                BinaryOp::Sub => ValueView::Number(f32_difference(x, y)),
                BinaryOp::Mul => ValueView::Number(f32_product(x, y)),
                BinaryOp::Div => ValueView::Number(f32_quotient(x, y)),
                BinaryOp::Greater => ValueView::Bool(f32_lt(y, x)),
                BinaryOp::Less => ValueView::Bool(f32_lt(x, y)),
            },
        ),
        _ => None,
    }
}

/// The negation of a number; `None` for any other value.
pub open spec fn negation(v: ValueView) -> Option<ValueView> {
    match v {
        ValueView::Number(x) => Some(ValueView::Number(f32_neg(x))),
        _ => None,
    }
}

/// The concatenation of two strings, left then right; `None` unless both are
/// strings.
pub open spec fn concatenation(a: ValueView, b: ValueView) -> Option<ValueView> {
    match (a, b) {
        (ValueView::Str(x), ValueView::Str(y)) => Some(ValueView::Str(x + y)),
        _ => None,
    }
}

fn order_key_of(x: u32) -> (r: i64)
    ensures
        r == order_key(x),
{
    let magnitude = (x & 0x7fff_ffff) as i64;
    if x & 0x8000_0000 != 0 {
        -magnitude
    } else {
        magnitude
    }
}

fn is_nan_bits(x: u32) -> (r: bool)
    ensures
        r == is_nan(x),
{
    (x & 0x7f80_0000) == 0x7f80_0000 && (x & 0x007f_ffff) != 0
}

fn less_bits(a: u32, b: u32) -> (r: bool)
    ensures
        r == f32_lt(a, b),
{
    !is_nan_bits(a) && !is_nan_bits(b) && order_key_of(a) < order_key_of(b)
}

impl Value {
    /// A copy of this value.
    pub fn duplicate(&self) -> (r: Value)
        ensures
            r == *self,
            r@ == self@,
    {
        match self {
            Value::VAL_BOOL(b) => Value::VAL_BOOL(*b),
            Value::VAL_NIL => Value::VAL_NIL,
            Value::VAL_NUMBER(n) => Value::VAL_NUMBER(*n),
            Value::VAL_OBJECT(o) => Value::VAL_OBJECT(o.duplicate()),
        }
    }

    pub fn is_falsey(&self) -> (r: bool)
        ensures
            r == is_falsey(self@),
    {
        match self {
            Value::VAL_NIL => true,
            Value::VAL_BOOL(b) => !*b,
            _ => false,
        }
    }

    /// Structural equality; values of different tags are unequal.
    pub fn equals(&self, other: &Value) -> (r: bool)
        ensures
            r == values_equal(self@, other@),
    {
        match (self, other) {
            (Value::VAL_BOOL(x), Value::VAL_BOOL(y)) => *x == *y,
            (Value::VAL_NIL, Value::VAL_NIL) => true,
            (Value::VAL_NUMBER(x), Value::VAL_NUMBER(y)) => !is_nan_bits(*x) && !is_nan_bits(*y)
                && order_key_of(*x) == order_key_of(*y),
            (Value::VAL_OBJECT(x), Value::VAL_OBJECT(y)) => x.equals(y),
            _ => false,
        }
    }

    /// The negation of a number, or `None` where the value is not one.
    pub fn negate(&self) -> (r: Option<Value>)
        ensures
            opt_view(r) == negation(self@),
    {
        match self {
            Value::VAL_NUMBER(x) => Some(Value::VAL_NUMBER(*x ^ 0x8000_0000)),
            _ => None,
        }
    }

    /// `op` applied to two numbers, or `None` where either is not a number.
    pub fn binary(op: BinaryOp, a: &Value, b: &Value) -> (r: Option<Value>)
        ensures
            opt_view(r) == binary_result(op, a@, b@),
    {
        match (a, b) {
            (Value::VAL_NUMBER(x), Value::VAL_NUMBER(y)) => {
                let (x, y) = (*x, *y);
                Some(
                    match op {
                        BinaryOp::Add => Value::VAL_NUMBER(add_bits(x, y)),
                        BinaryOp::Sub => Value::VAL_NUMBER(sub_bits(x, y)),
                        BinaryOp::Mul => Value::VAL_NUMBER(mul_bits(x, y)),
                        BinaryOp::Div => Value::VAL_NUMBER(div_bits(x, y)),
                        BinaryOp::Greater => Value::VAL_BOOL(less_bits(y, x)),
                        BinaryOp::Less => Value::VAL_BOOL(less_bits(x, y)),
                    },
                )
            },
            _ => None,
        }
    }

    /// The concatenation of two strings, or `None` where either is not one.
    pub fn concatenate(a: &Value, b: &Value) -> (r: Option<Value>)
        ensures
            opt_view(r) == concatenation(a@, b@),
    {
        match (a, b) {
            (Value::VAL_OBJECT(x), Value::VAL_OBJECT(y)) => match (&x.object_type, &y.object_type) {
                (ObjectType::OBJ_STRING(s), ObjectType::OBJ_STRING(t)) => {
                    let joined = s.clone().concat(t.as_str());
                    Some(Value::VAL_OBJECT(Object::string(joined)))
                },
            },
            _ => None,
        }
    }
}

/// The constant pool: values in the order they were added.
pub struct ValueArray {
    pub count: usize,
    pub values: Vec<Value>,
}

impl ValueArray {
    pub open spec fn wf(&self) -> bool {
        self.count == self.values.len()
    }

    pub fn new() -> (r: ValueArray)
        ensures
            r.wf(),
            r.values@ == Seq::<Value>::empty(),
    {
        ValueArray { count: 0, values: Vec::new() }
    }

    /// Appends `value`.
    pub fn write(&mut self, value: Value)
        requires
            old(self).wf(),
            old(self).count < usize::MAX,
        ensures
            final(self).wf(),
            final(self).values@ == old(self).values@.push(value),
    {
        self.values.push(value);
        self.count = self.count + 1;
    }
}

} // verus!
