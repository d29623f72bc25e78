//! The runtime value model: numbers, booleans, nil and owned strings.

use vstd::prelude::*;
use vstd::std_specs::cmp::PartialEqSpecImpl;
use vstd::std_specs::convert::FromSpecImpl;
use vstd::string::StringExecFns;

verus! {

/// The sign bit of a binary64 pattern.
pub const SIGN_BIT: u64 = 0x8000_0000_0000_0000;

/// The pattern of positive infinity; every larger magnitude is a NaN.
pub const INFINITY_BITS: u64 = 0x7ff0_0000_0000_0000;

/// An IEEE-754 binary64 number, held as its bit pattern.
#[derive(Clone, Copy, Debug)]
pub struct Number {
    pub bits: u64,
}

impl Number {
    /// The pattern without its sign bit.
    pub open spec fn magnitude(self) -> u64 {
        if self.bits >= SIGN_BIT {
            (self.bits - SIGN_BIT) as u64
        } else {
            self.bits
        }
    }

    pub open spec fn is_negative(self) -> bool {
        self.bits >= SIGN_BIT
    }

    pub open spec fn is_nan(self) -> bool {
        self.magnitude() > INFINITY_BITS
    }

    /// An integer that orders the numbers that are not NaN as their values
    /// are ordered; both zeros have rank 0.
    pub open spec fn rank(self) -> int {
        if self.is_negative() {
            -(self.magnitude() as int)
        } else {
            self.magnitude() as int
        }
    }

    /// Numeric equality: a NaN equals nothing, the two zeros are equal.
    pub open spec fn same(self, other: Number) -> bool {
        !self.is_nan() && !other.is_nan() && self.rank() == other.rank()
    }

    /// Numeric order: false whenever either side is a NaN.
    pub open spec fn below(self, other: Number) -> bool {
        !self.is_nan() && !other.is_nan() && self.rank() < other.rank()
    }

    /// The number with the opposite sign and the same magnitude.
    pub open spec fn negated(self) -> Number {
        Number {
            bits: if self.bits >= SIGN_BIT {
                (self.bits - SIGN_BIT) as u64
            } else {
                (self.bits + SIGN_BIT) as u64
            },
        }
    }

    pub fn from_bits(bits: u64) -> (n: Number)
        ensures
            n.bits == bits,
    {
        Number { bits }
    }

    pub fn to_bits(&self) -> (bits: u64)
        ensures
            bits == self.bits,
    {
        self.bits
    }

    fn magnitude_bits(&self) -> (m: u64)
        ensures
            m == self.magnitude(),
    {
        if self.bits >= SIGN_BIT {
            self.bits - SIGN_BIT
        } else {
            self.bits
        }
    }

    pub fn nan(&self) -> (r: bool)
        ensures
            r == self.is_nan(),
    {
        self.magnitude_bits() > INFINITY_BITS
    }

    pub fn negate(&self) -> (n: Number)
        ensures
            n == self.negated(),
            n.magnitude() == self.magnitude(),
            n.is_negative() != self.is_negative(),
    {
        if self.bits >= SIGN_BIT {
            Number { bits: self.bits - SIGN_BIT }
        } else {
            Number { bits: self.bits + SIGN_BIT }
        }
    }

    pub fn less_than(&self, other: &Number) -> (r: bool)
        ensures
            r == self.below(*other),
    {
        if self.nan() || other.nan() {
            return false;
        }
        let a: u64 = self.magnitude_bits();
        let b: u64 = other.magnitude_bits();
        if self.bits >= SIGN_BIT {
            if other.bits >= SIGN_BIT {
                a > b
            } else {
                a > 0 || b > 0
            }
        } else {
            if other.bits >= SIGN_BIT {
                false
            } else {
                a < b
            }
        }
    }

    pub fn greater_than(&self, other: &Number) -> (r: bool)
        ensures
            r == other.below(*self),
    {
        other.less_than(self)
    }
}

impl PartialEq for Number {
    fn eq(&self, other: &Number) -> (r: bool) {
        if self.nan() || other.nan() {
            return false;
        }
        let a: u64 = self.magnitude_bits();
        let b: u64 = other.magnitude_bits();
        if a == 0 && b == 0 {
            true
        } else {
            self.bits == other.bits
        }
    }
}

impl PartialEqSpecImpl for Number {
    open spec fn obeys_eq_spec() -> bool {
        true
    }

    open spec fn eq_spec(&self, other: &Number) -> bool {
        self.same(*other)
    }
}

/// The payload of a heap value.
#[derive(Debug)]
pub enum ObjValue {
    String(String),
}

/// A heap value.
#[derive(Debug)]
pub struct Obj {
    pub value: ObjValue,
}

/// A runtime value.
#[derive(Debug)]
pub enum Value {
    Boolean(bool),
    Number(Number),
    Nil,
    Obj(Obj),
}

/// What a value is, with its string as a sequence of characters.
pub ghost enum Datum {
    Boolean(bool),
    Number(Number),
    Nil,
    Text(Seq<char>),
}

impl Datum {
    /// Only `nil` and `false` are falsey.
    pub open spec fn truthy(self) -> bool {
        match self {
            Datum::Nil => false,
            Datum::Boolean(b) => b,
            _ => true,
        }
    }

    /// Equality of the language: values of different variants are never
    /// equal, numbers are compared numerically.
    pub open spec fn equals(self, other: Datum) -> bool {
        match (self, other) {
            (Datum::Boolean(a), Datum::Boolean(b)) => a == b,
            (Datum::Number(a), Datum::Number(b)) => a.same(b),
            (Datum::Nil, Datum::Nil) => true,
            (Datum::Text(a), Datum::Text(b)) => a == b,
            _ => false,
        }
    }
}

impl View for ObjValue {
    type V = Seq<char>;

    open spec fn view(&self) -> Seq<char> {
        match self {
            ObjValue::String(s) => s@,
        }
    }
}

impl View for Obj {
    type V = Seq<char>;

    open spec fn view(&self) -> Seq<char> {
        self.value@
    }
}

impl View for Value {
    type V = Datum;

    open spec fn view(&self) -> Datum {
        match self {
            Value::Boolean(b) => Datum::Boolean(*b),
            Value::Number(n) => Datum::Number(*n),
            Value::Nil => Datum::Nil,
            Value::Obj(o) => Datum::Text(o@),
        }
    }
}

impl Clone for ObjValue {
    fn clone(&self) -> (r: ObjValue)
        ensures
            r == *self,
    {
        match self {
            ObjValue::String(s) => ObjValue::String(s.clone()),
        }
    }
}

impl PartialEq for ObjValue {
    fn eq(&self, other: &ObjValue) -> (r: bool) {
        match (self, other) {
            (ObjValue::String(a), ObjValue::String(b)) => a.eq(b),
        }
    }
}

impl PartialEqSpecImpl for ObjValue {
    open spec fn obeys_eq_spec() -> bool {
        true
    }

    open spec fn eq_spec(&self, other: &ObjValue) -> bool {
        self@ == other@
    }
}

impl Clone for Obj {
    fn clone(&self) -> (r: Obj)
        ensures
            r == *self,
    {
        Obj { value: self.value.clone() }
    }
}

impl PartialEq for Obj {
    fn eq(&self, other: &Obj) -> (r: bool) {
        self.value == other.value
    }
}

impl PartialEqSpecImpl for Obj {
    open spec fn obeys_eq_spec() -> bool {
        true
    }

    open spec fn eq_spec(&self, other: &Obj) -> bool {
        self@ == other@
    }
}

impl Clone for Value {
    fn clone(&self) -> (r: Value)
        ensures
            r == *self,
    {
        match self {
            Value::Boolean(b) => Value::Boolean(*b),
            Value::Number(n) => Value::Number(*n),
            Value::Nil => Value::Nil,
            Value::Obj(o) => Value::Obj(o.clone()),
        }
    }
}

impl PartialEq for Value {
    fn eq(&self, other: &Value) -> (r: bool) {
        match (self, other) {
            (Value::Boolean(a), Value::Boolean(b)) => *a == *b,
            (Value::Number(a), Value::Number(b)) => a == b,
            (Value::Nil, Value::Nil) => true,
            (Value::Obj(a), Value::Obj(b)) => a == b,
            _ => false,
        }
    }
}

impl PartialEqSpecImpl for Value {
    open spec fn obeys_eq_spec() -> bool {
        true
    }

    open spec fn eq_spec(&self, other: &Value) -> bool {
        self@.equals(other@)
    }
}

impl Value {
    /// The string value with the text `text`.
    pub fn string(text: &str) -> (value: Value)
        ensures
            value@ == Datum::Text(text@),
    {
        Value::Obj(Obj { value: ObjValue::String(String::from_str(text)) })
    }

    pub fn is_truthy(&self) -> (r: bool)
        ensures
            r == self@.truthy(),
    {
        match self {
            Value::Nil => false,
            Value::Boolean(b) => *b,
            _ => true,
        }
    }

    pub fn is_falsey(&self) -> (r: bool)
        ensures
            r == !self@.truthy(),
    {
        !self.is_truthy()
    }
}

impl From<bool> for Value {
    fn from(value: bool) -> (r: Value) {
        Value::Boolean(value)
    }
}

impl FromSpecImpl<bool> for Value {
    open spec fn obeys_from_spec() -> bool {
        true
    }

    open spec fn from_spec(value: bool) -> Value {
        Value::Boolean(value)
    }
}

impl From<Number> for Value {
    fn from(value: Number) -> (r: Value) {
        Value::Number(value)
    }
}

impl FromSpecImpl<Number> for Value {
    open spec fn obeys_from_spec() -> bool {
        true
    }

    open spec fn from_spec(value: Number) -> Value {
        Value::Number(value)
    }
}

impl From<String> for Value {
    fn from(value: String) -> (r: Value) {
        Value::Obj(Obj { value: ObjValue::String(value) })
    }
}

impl FromSpecImpl<String> for Value {
    open spec fn obeys_from_spec() -> bool {
        true
    }

    open spec fn from_spec(value: String) -> Value {
        Value::Obj(Obj { value: ObjValue::String(value) })
    }
}


/// Values of different types are never equal.
pub proof fn lemma_equal_values_have_one_type(a: Datum, b: Datum)
    requires
        a.equals(b),
    ensures
        a is Boolean <==> b is Boolean,
        a is Number <==> b is Number,
        a is Nil <==> b is Nil,
        a is Text <==> b is Text,
{
}

/// Equality of values is symmetric.
pub proof fn lemma_equality_is_symmetric(a: Datum, b: Datum)
    ensures
        a.equals(b) == b.equals(a),
{
}

/// A value other than a number that is not a NaN equals itself.
pub proof fn lemma_equality_is_reflexive_off_nan(a: Datum)
    requires
        a matches Datum::Number(n) ==> !n.is_nan(),
    ensures
        a.equals(a),
{
}

/// Every value is falsey or truthy, and only `nil` and `false` are
/// falsey.
pub proof fn lemma_falsey_values(a: Datum)
    ensures
        !a.truthy() <==> (a == Datum::Nil || a == Datum::Boolean(false)),
{
}

} // verus!
