//! The values of an expression, and the five operators on them.

use vstd::prelude::*;
use crate::error::{viewed, EvalError, Halt, Halted, TypeTag};
use crate::operator::Operator;
use crate::reals::{combined, parsed, shown, Fact, Real, RealTable};
use crate::text::{chars_of, dotted, parse_int, read_int, render_int, string_of, with_dots, write_int};

verus! {

/// A value, as contracts speak of it.
pub enum Value {
    /// An integer.
    Int(int),
    /// A real.
    Float(Real),
    /// A text.
    Text(Seq<char>),
}

impl Value {
    /// The kind of the value.
    pub open spec fn tag(self) -> TypeTag {
        match self {
            Value::Int(_) => TypeTag::Int,
            Value::Float(_) => TypeTag::Float,
            Value::Text(_) => TypeTag::String,
        }
    }

    /// The value is an integer or a real.
    pub open spec fn is_number(self) -> bool {
        !(self is Text)
    }

    /// The value is a number, and that number is zero.
    pub open spec fn is_zero(self) -> bool {
        match self {
            Value::Int(whole) => whole == 0,
            Value::Float(number) => number.zero(),
            Value::Text(_) => false,
        }
    }

    /// A number as a real: a real is itself, an integer is promoted to the real that
    /// it is.
    pub open spec fn as_real(self) -> Real
        recommends
            self.is_number(),
    {
        match self {
            Value::Int(whole) => Real::of_int(whole),
            Value::Float(number) => number,
            Value::Text(_) => Real { bits: 0 },
        }
    }

    /// What a value adds to a text it is joined with: a text adds itself, an integer
    /// its decimal form, a real the form that the facts show it in.
    pub open spec fn as_text(self, facts: Seq<Fact>) -> Result<Seq<char>, Halted> {
        match self {
            Value::Int(whole) => Ok(render_int(whole)),
            Value::Float(number) => shown(facts, number),
            Value::Text(text) => Ok(text),
        }
    }

    /// How a value is displayed: a number as it is joined with a text, a text between
    /// quotation marks.
    pub open spec fn displayed(self, facts: Seq<Fact>) -> Result<Seq<char>, Halted> {
        match self {
            Value::Text(text) => Ok(seq!['"'] + text + seq!['"']),
            _ => self.as_text(facts),
        }
    }
}

/// The 32-bit two's complement integer that is congruent to `x` modulo 2^32.
pub open spec fn wrap(x: int) -> int {
    let low = x % 0x1_0000_0000;
    if low >= 0x8000_0000 {
        low - 0x1_0000_0000
    } else {
        low
    }
}

/// The distance of an integer from zero.
pub open spec fn magnitude(x: int) -> int {
    if x < 0 {
        -x
    } else {
        x
    }
}

/// The quotient of two integers, truncated toward zero.
pub open spec fn quotient(a: int, b: int) -> int
    recommends
        b != 0,
{
    let q = magnitude(a) / magnitude(b);
    if (a < 0) != (b < 0) {
        -q
    } else {
        q
    }
}

/// The remainder that truncated division leaves; it has the sign of the dividend.
pub open spec fn remainder(a: int, b: int) -> int
    recommends
        b != 0,
{
    let r = magnitude(a) % magnitude(b);
    if a < 0 {
        -r
    } else {
        r
    }
}

/// The text repeated `count` times; no text at all where `count` is not positive.
pub open spec fn repeat(text: Seq<char>, count: int) -> Seq<char>
    decreases count,
{
    if count <= 0 {
        Seq::empty()
    } else {
        repeat(text, count - 1) + text
    }
}

/// The operator on two numbers of which at least one is a real: an integer among them
/// is promoted, and the facts give the result.
pub open spec fn on_reals(operator: Operator, left: Value, right: Value, facts: Seq<Fact>) -> Result<
    Value,
    Halted,
>
    recommends
        left.is_number(),
        right.is_number(),
{
    match combined(facts, operator, left.as_real(), right.as_real()) {
        Err(halt) => Err(halt),
        Ok(number) => Ok(Value::Float(number)),
    }
}

/// The failure of an operator on operands of kinds it is not defined on.
pub open spec fn unsupported(operator: Operator, left: Value, right: Value) -> Result<
    Value,
    Halted,
> {
    Err(
        Halted::Failed(
            EvalError::UnsupportedOperand { operator, left: left.tag(), right: right.tag() },
        ),
    )
}

/// The failure of a division or remainder by zero.
pub open spec fn by_zero(operator: Operator) -> Result<Value, Halted> {
    Err(Halted::Failed(EvalError::DivisionByZero { operator }))
}

/// `left + right`: the wrapping sum of two integers, the sum of two numbers as reals,
/// and, where either is a text, the two joined.
pub open spec fn sum(left: Value, right: Value, facts: Seq<Fact>) -> Result<Value, Halted> {
    match (left, right) {
        (Value::Int(a), Value::Int(b)) => Ok(Value::Int(wrap(a + b))),
        _ => if left.is_number() && right.is_number() {
            on_reals(Operator::Add, left, right, facts)
        } else {
            match left.as_text(facts) {
                Err(halt) => Err(halt),
                Ok(l) => match right.as_text(facts) {
                    Err(halt) => Err(halt),
                    Ok(r) => Ok(Value::Text(l + r)),
                },
            }
        },
    }
}

/// `left - right`: the wrapping difference of two integers, the difference of two
/// numbers as reals; not defined on a text.
pub open spec fn difference(left: Value, right: Value, facts: Seq<Fact>) -> Result<
    Value,
    Halted,
> {
    match (left, right) {
        (Value::Int(a), Value::Int(b)) => Ok(Value::Int(wrap(a - b))),
        _ => if left.is_number() && right.is_number() {
            on_reals(Operator::Sub, left, right, facts)
        } else {
            unsupported(Operator::Sub, left, right)
        },
    }
}

/// `left * right`: the wrapping product of two integers, the product of two numbers
/// as reals, a text repeated as often as an integer says; not defined on a text and a
/// real, nor on two texts.
pub open spec fn product(left: Value, right: Value, facts: Seq<Fact>) -> Result<Value, Halted> {
    match (left, right) {
        (Value::Int(a), Value::Int(b)) => Ok(Value::Int(wrap(a * b))),
        (Value::Int(count), Value::Text(text)) => Ok(Value::Text(repeat(text, count))),
        (Value::Text(text), Value::Int(count)) => Ok(Value::Text(repeat(text, count))),
        _ => if left.is_number() && right.is_number() {
            on_reals(Operator::Mul, left, right, facts)
        } else {
            unsupported(Operator::Mul, left, right)
        },
    }
}

/// `left / right`: not defined on a text; fails where the right number is zero; else
/// the truncated quotient of two integers, wrapped, or the quotient of two numbers as
/// reals.
pub open spec fn ratio(left: Value, right: Value, facts: Seq<Fact>) -> Result<Value, Halted> {
    if !(left.is_number() && right.is_number()) {
        unsupported(Operator::Div, left, right)
    } else if right.is_zero() {
        by_zero(Operator::Div)
    } else {
        match (left, right) {
            (Value::Int(a), Value::Int(b)) => Ok(Value::Int(wrap(quotient(a, b)))),
            _ => on_reals(Operator::Div, left, right, facts),
        }
    }
}

/// `left % right`: not defined on a text; fails where the right number is zero; else
/// the remainder of the truncated division of two integers, or the remainder of two
/// numbers as reals.
pub open spec fn modulo(left: Value, right: Value, facts: Seq<Fact>) -> Result<Value, Halted> {
    if !(left.is_number() && right.is_number()) {
        unsupported(Operator::Rem, left, right)
    } else if right.is_zero() {
        by_zero(Operator::Rem)
    } else {
        match (left, right) {
            (Value::Int(a), Value::Int(b)) => Ok(Value::Int(remainder(a, b))),
            _ => on_reals(Operator::Rem, left, right, facts),
        }
    }
}

/// What an operator gives on two values.
#[verifier::opaque]
pub open spec fn apply(operator: Operator, left: Value, right: Value, facts: Seq<Fact>) -> Result<
    Value,
    Halted,
> {
    match operator {
        Operator::Add => sum(left, right, facts),
        Operator::Sub => difference(left, right, facts),
        Operator::Mul => product(left, right, facts),
        Operator::Div => ratio(left, right, facts),
        Operator::Rem => modulo(left, right, facts),
    }
}

/// The value that a literal stands for: the integer it writes; else the real that its
/// text reads as once every decimal comma is a decimal point; else the text itself.
pub open spec fn coerce(text: Seq<char>, facts: Seq<Fact>) -> Result<Value, Halted> {
    match parse_int(text) {
        Some(whole) => Ok(Value::Int(whole)),
        None => match parsed(facts, dotted(text)) {
            Err(halt) => Err(halt),
            Ok(Some(number)) => Ok(Value::Float(number)),
            Ok(None) => Ok(Value::Text(text)),
        },
    }
}

/// A value: an integer, a real or a text.
#[derive(Debug)]
pub enum Type {
    /// A 32-bit signed integer.
    Int(i32),
    /// A real.
    Float(Real),
    /// A text.
    String(String),
}

impl View for Type {
    type V = Value;

    open spec fn view(&self) -> Value {
        match self {
            Type::Int(whole) => Value::Int(*whole as int),
            Type::Float(number) => Value::Float(*number),
            Type::String(text) => Value::Text(text@),
        }
    }
}

impl PartialEq for Type {
    /// Two values are equal when they are of one kind and equal in it: the same
    /// integer, reals that are equal as numbers, the same text.
    fn eq(&self, other: &Type) -> (b: bool) {
        match (self, other) {
            (Type::Int(a), Type::Int(b)) => *a == *b,
            (Type::Float(a), Type::Float(b)) => a.equals(*b),
            (Type::String(a), Type::String(b)) => *a == *b,
            _ => false,
        }
    }
}

impl vstd::std_specs::cmp::PartialEqSpecImpl for Type {
    open spec fn obeys_eq_spec() -> bool {
        true
    }

    open spec fn eq_spec(&self, other: &Type) -> bool {
        match (self, other) {
            (Type::Int(a), Type::Int(b)) => *a == *b,
            (Type::Float(a), Type::Float(b)) => a.same_number(*b),
            (Type::String(a), Type::String(b)) => a@ == b@,
            _ => false,
        }
    }
}

impl Clone for Type {
    fn clone(&self) -> (copy: Type)
        ensures
            copy == *self,
    {
        match self {
            Type::Int(whole) => Type::Int(*whole),
            Type::Float(number) => Type::Float(*number),
            Type::String(text) => Type::String(text.clone()),
        }
    }
}

/// The text repeated `count` times; no text at all where `count` is not positive.
pub fn repeat_text(text: &str, count: i32) -> (out: String)
    ensures
        out@ == repeat(text@, count as int),
{
    let mut out = String::new();
    let mut i: i32 = 0;
    while i < count
        invariant
            0 <= i,
            count <= 0 ==> i == 0,
            count > 0 ==> i <= count,
            out@ == repeat(text@, i as int),
        decreases count - i,
    {
        out.append(text);
        i += 1;
    }
    out
}

/// The value of a literal given by its characters.
pub fn coerce_chars(text: &Vec<char>, reals: &RealTable) -> (r: Result<Type, Halt>)
    ensures
        viewed(r) == coerce(text@, reals@),
{
    match read_int(text) {
        Some(whole) => Ok(Type::Int(whole)),
        None => {
            let normal = with_dots(text);
            match reals.parse(&normal) {
                Err(halt) => Err(halt),
                Ok(Some(number)) => Ok(Type::Float(number)),
                Ok(None) => Ok(Type::String(string_of(text))),
            }
        },
    }
}

/// The operator on two numbers, computed as reals.
pub fn real_arith(operator: Operator, left: &Type, right: &Type, reals: &RealTable) -> (r: Result<
    Type,
    Halt,
>)
    requires
        left@.is_number(),
        right@.is_number(),
    ensures
        viewed(r) == on_reals(operator, left@, right@, reals@),
{
    match reals.combine(operator, left.as_real(), right.as_real()) {
        Ok(number) => Ok(Type::Float(number)),
        Err(halt) => Err(halt),
    }
}

/// The failure of an operator on operands of kinds it is not defined on.
pub fn refuse(operator: Operator, left: &Type, right: &Type) -> (r: Result<Type, Halt>)
    ensures
        viewed(r) == unsupported(operator, left@, right@),
{
    Err(
        Halt::Failed(
            EvalError::UnsupportedOperand { operator, left: left.tag(), right: right.tag() },
        ),
    )
}

impl Type {
    /// `self + other`.
    pub fn add(self, other: Type, reals: &RealTable) -> (r: Result<Type, Halt>)
        ensures
            viewed(r) == sum(self@, other@, reals@),
    {
        match (&self, &other) {
            (Type::Int(a), Type::Int(b)) => Ok(Type::Int(a.wrapping_add(*b))),
            _ => {
                if self.is_number() && other.is_number() {
                    real_arith(Operator::Add, &self, &other, reals)
                } else {
                    let l = match self.as_text(reals) {
                        Ok(text) => text,
                        Err(halt) => {
                            return Err(halt);
                        },
                    };
                    let r = match other.as_text(reals) {
                        Ok(text) => text,
                        Err(halt) => {
                            return Err(halt);
                        },
                    };
                    Ok(Type::String(l.concat(r.as_str())))
                }
            },
        }
    }

    /// `self - other`.
    pub fn sub(self, other: Type, reals: &RealTable) -> (r: Result<Type, Halt>)
        ensures
            viewed(r) == difference(self@, other@, reals@),
    {
        match (&self, &other) {
            (Type::Int(a), Type::Int(b)) => Ok(Type::Int(a.wrapping_sub(*b))),
            _ => {
                if self.is_number() && other.is_number() {
                    real_arith(Operator::Sub, &self, &other, reals)
                } else {
                    refuse(Operator::Sub, &self, &other)
                }
            },
        }
    }

    /// `self * other`.
    pub fn mul(self, other: Type, reals: &RealTable) -> (r: Result<Type, Halt>)
        ensures
            viewed(r) == product(self@, other@, reals@),
    {
        match (&self, &other) {
            (Type::Int(a), Type::Int(b)) => Ok(Type::Int(a.wrapping_mul(*b))),
            (Type::Int(count), Type::String(text)) => Ok(
                Type::String(repeat_text(text.as_str(), *count)),
            ),
            (Type::String(text), Type::Int(count)) => Ok(
                Type::String(repeat_text(text.as_str(), *count)),
            ),
            _ => {
                if self.is_number() && other.is_number() {
                    real_arith(Operator::Mul, &self, &other, reals)
                } else {
                    refuse(Operator::Mul, &self, &other)
                }
            },
        }
    }

    /// `self / other`.
    pub fn div(self, other: Type, reals: &RealTable) -> (r: Result<Type, Halt>)
        ensures
            viewed(r) == ratio(self@, other@, reals@),
    {
        if !(self.is_number() && other.is_number()) {
            return refuse(Operator::Div, &self, &other);
        }
        if other.is_zero() {
            return Err(Halt::Failed(EvalError::DivisionByZero { operator: Operator::Div }));
        }
        match (&self, &other) {
            (Type::Int(a), Type::Int(b)) => {
                match a.checked_div(*b) {
                    Some(q) => Ok(Type::Int(q)),
                    None => Ok(Type::Int(i32::MIN)),
                }
            },
            _ => real_arith(Operator::Div, &self, &other, reals),
        }
    }

    /// `self % other`.
    pub fn rem(self, other: Type, reals: &RealTable) -> (r: Result<Type, Halt>)
        ensures
            viewed(r) == modulo(self@, other@, reals@),
    {
        if !(self.is_number() && other.is_number()) {
            return refuse(Operator::Rem, &self, &other);
        }
        if other.is_zero() {
            return Err(Halt::Failed(EvalError::DivisionByZero { operator: Operator::Rem }));
        }
        match (&self, &other) {
            (Type::Int(a), Type::Int(b)) => {
                match a.checked_rem(*b) {
                    Some(m) => {
                        assert(0int % magnitude(*b as int) == 0) by (nonlinear_arith)
                            requires
                                magnitude(*b as int) > 0,
                        ;
                        Ok(Type::Int(m))
                    },
                    None => Ok(Type::Int(0)),
                }
            },
            _ => real_arith(Operator::Rem, &self, &other, reals),
        }
    }

    /// The kind of the value.
    pub fn tag(&self) -> (tag: TypeTag)
        ensures
            tag == self@.tag(),
    {
        match self {
            Type::Int(_) => TypeTag::Int,
            Type::Float(_) => TypeTag::Float,
            Type::String(_) => TypeTag::String,
        }
    }

    /// The name of the value's kind: `i32`, `f64` or `String`.
    pub fn get_type(&self) -> (name: &str)
        ensures
            name@ == self@.tag().name(),
    {
        self.tag().as_str()
    }

    /// The value that a literal stands for.
    pub fn from(value: &str, reals: &RealTable) -> (r: Result<Type, Halt>)
        ensures
            viewed(r) == coerce(value@, reals@),
    {
        let text = chars_of(value);
        coerce_chars(&text, reals)
    }

    /// Whether the value is an integer or a real.
    pub fn is_number(&self) -> (b: bool)
        ensures
            b == self@.is_number(),
    {
        match self {
            Type::String(_) => false,
            _ => true,
        }
    }

    /// Whether the value is a number that is zero.
    pub fn is_zero(&self) -> (b: bool)
        ensures
            b == self@.is_zero(),
    {
        match self {
            Type::Int(whole) => *whole == 0,
            Type::Float(number) => number.is_zero(),
            Type::String(_) => false,
        }
    }

    /// A number as a real: a real is itself, an integer is promoted.
    pub fn as_real(&self) -> (r: Real)
        requires
            self@.is_number(),
        ensures
            r == self@.as_real(),
    {
        match self {
            Type::Int(whole) => Real::from_int(*whole),
            Type::Float(number) => *number,
            Type::String(_) => Real::from_bits(0),
        }
    }

    /// What the value adds to a text it is joined with.
    pub fn as_text(&self, reals: &RealTable) -> (r: Result<String, Halt>)
        ensures
            viewed(r) == self@.as_text(reals@),
    {
        match self {
            Type::Int(whole) => Ok(string_of(&write_int(*whole))),
            Type::Float(number) => reals.show(*number),
            Type::String(text) => Ok(text.clone()),
        }
    }

    /// How the value is displayed: a number in its decimal form, a text between
    /// quotation marks.
    pub fn display(&self, reals: &RealTable) -> (r: Result<String, Halt>)
        ensures
            viewed(r) == self@.displayed(reals@),
    {
        match self {
            Type::String(text) => {
                let mut out = String::new();
                out.push('"');
                out.append(text.as_str());
                out.push('"');
                assert(out@ =~= seq!['"'] + text@ + seq!['"']);
                Ok(out)
            },
            _ => self.as_text(reals),
        }
    }
}

} // verus!
