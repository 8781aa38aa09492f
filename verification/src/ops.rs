use crate::float::Double;
use crate::program::Const;
use crate::text::framed;
use crate::value::{
    evaluated, invalid, invalid_message, refusal, ErrorView, InterpreterError, Value, ValueView,
};
use crate::value_ops::{kind_name, kind_text};
use vstd::prelude::*;
use vstd::string::StringExecFns;

verus! {

/// How two values of one kind compare.
#[derive(Debug, Clone, Copy, PartialEq, Eq, Structural)]
pub enum Order {
    Less,
    Equal,
    Greater,
}

/// An operator that numbers of either kind have.
#[derive(Debug, Clone, Copy, PartialEq, Eq, Structural)]
pub enum ArithOp {
    Add,
    Sub,
    Mul,
}

/// A bitwise operator.
#[derive(Debug, Clone, Copy, PartialEq, Eq, Structural)]
pub enum BitOp {
    And,
    Or,
    Xor,
}

/// A shift operator.
#[derive(Debug, Clone, Copy, PartialEq, Eq, Structural)]
pub enum ShiftOp {
    Left,
    Right,
}

/// A message about two values: what was attempted, the kind of the
/// first, a joining word, the kind of the second.
pub open spec fn between(
    attempt: Seq<char>,
    a: ValueView,
    joined: Seq<char>,
    b: ValueView,
) -> ErrorView {
    refusal(attempt + kind_text(a) + joined + kind_text(b))
}

/// The value a literal denotes.
pub open spec fn constant(c: Const) -> ValueView {
    match c {
        Const::Int(n) => ValueView::Int(n as i128),
        Const::Float(x) => ValueView::Float(x),
        Const::Bool(b) => ValueView::Bool(b),
        Const::Char(c) => ValueView::Char(c),
        Const::Str(s) => ValueView::Str(s@),
        Const::Unit => ValueView::Unit,
    }
}

/// Integer arithmetic, which wraps around.
pub open spec fn int_arithmetic(op: ArithOp, x: i128, y: i128) -> i128 {
    match op {
        ArithOp::Add => x.wrapping_add(y),
        ArithOp::Sub => x.wrapping_sub(y),
        ArithOp::Mul => x.wrapping_mul(y),
    }
}

/// Floating-point arithmetic.
pub open spec fn float_arithmetic(op: ArithOp, x: Double, y: Double) -> Double {
    match op {
        ArithOp::Add => x.plus(y),
        ArithOp::Sub => x.minus(y),
        ArithOp::Mul => x.times(y),
    }
}

/// Arithmetic on two values, which must be numbers of one kind.
pub open spec fn arithmetic(op: ArithOp, a: ValueView, b: ValueView) -> Result<
    ValueView,
    ErrorView,
> {
    match (a, b) {
        (ValueView::Int(x), ValueView::Int(y)) => Ok(ValueView::Int(int_arithmetic(op, x, y))),
        (ValueView::Float(x), ValueView::Float(y)) => Ok(
            ValueView::Float(float_arithmetic(op, x, y)),
        ),
        (a, b) => Err(between("arithmetic between "@, a, " and "@, b)),
    }
}

/// The quotient rounded toward zero; the one that does not fit wraps
/// around to the dividend.
pub open spec fn int_quotient(x: i128, y: i128) -> i128 {
    match x.checked_div(y) {
        Some(q) => q,
        None => x,
    }
}

/// The remainder of that quotient, with the sign of the dividend.
pub open spec fn int_remainder(x: i128, y: i128) -> i128 {
    match x.checked_rem(y) {
        Some(r) => r,
        None => 0,
    }
}

/// The quotient or remainder of two values. An integer divisor of zero
/// is refused; a floating-point one is not.
pub open spec fn division(a: ValueView, b: ValueView, remainder: bool) -> Result<
    ValueView,
    ErrorView,
> {
    match (a, b) {
        (ValueView::Int(x), ValueView::Int(y)) => if y == 0 {
            Err(ErrorView::DivisionByZero)
        } else if remainder {
            Ok(ValueView::Int(int_remainder(x, y)))
        } else {
            Ok(ValueView::Int(int_quotient(x, y)))
        },
        (ValueView::Float(x), ValueView::Float(y)) => if remainder {
            Ok(ValueView::Float(x.modulo(y)))
        } else {
            Ok(ValueView::Float(x.over(y)))
        },
        (a, b) => Err(between("division between "@, a, " and "@, b)),
    }
}

/// The negative of a number.
pub open spec fn negation(a: ValueView) -> Result<ValueView, ErrorView> {
    match a {
        ValueView::Int(x) => Ok(ValueView::Int(0i128.wrapping_sub(x))),
        ValueView::Float(x) => Ok(ValueView::Float(x.negated())),
        other => Err(refusal("cannot negate "@ + kind_text(other))),
    }
}

/// The complement of a truth value or of an integer's bits: flipping
/// every bit of `x` gives `-1 - x`.
pub open spec fn complement(a: ValueView) -> Result<ValueView, ErrorView> {
    match a {
        ValueView::Bool(x) => Ok(ValueView::Bool(!x)),
        ValueView::Int(x) => Ok(ValueView::Int((-1 - x) as i128)),
        other => Err(refusal("cannot apply `not` to "@ + kind_text(other))),
    }
}

/// A bitwise operation on two integers.
pub open spec fn bitwise(op: BitOp, a: ValueView, b: ValueView) -> Result<ValueView, ErrorView> {
    match (a, b) {
        (ValueView::Int(x), ValueView::Int(y)) => Ok(
            ValueView::Int(
                match op {
                    BitOp::And => x & y,
                    BitOp::Or => x | y,
                    BitOp::Xor => x ^ y,
                },
            ),
        ),
        (a, b) => Err(between("bitwise operator between "@, a, " and "@, b)),
    }
}

/// A shift of one integer by another, which must be below the width.
pub open spec fn shifted(op: ShiftOp, a: ValueView, b: ValueView) -> Result<ValueView, ErrorView> {
    match (a, b) {
        (ValueView::Int(x), ValueView::Int(y)) => if 0 <= y < 128 {
            Ok(
                ValueView::Int(
                    match op {
                        ShiftOp::Left => x << (y as u32),
                        ShiftOp::Right => x >> (y as u32),
                    },
                ),
            )
        } else {
            Err(refusal("shift amount out of range"@))
        },
        (a, b) => Err(between("shift between "@, a, " and "@, b)),
    }
}

/// Whether two values of one primitive kind are equal.
pub open spec fn equality(a: ValueView, b: ValueView) -> Result<bool, ErrorView> {
    match (a, b) {
        (ValueView::Int(x), ValueView::Int(y)) => Ok(x == y),
        (ValueView::Float(x), ValueView::Float(y)) => Ok(x.equals(y)),
        (ValueView::Bool(x), ValueView::Bool(y)) => Ok(x == y),
        (ValueView::Char(x), ValueView::Char(y)) => Ok(x == y),
        (ValueView::Str(x), ValueView::Str(y)) => Ok(x == y),
        (ValueView::Unit, ValueView::Unit) => Ok(true),
        (a, b) => Err(between("compared "@, a, " with "@, b)),
    }
}

/// How two whole numbers compare.
pub open spec fn int_order(x: int, y: int) -> Order {
    if x < y {
        Order::Less
    } else if x == y {
        Order::Equal
    } else {
        Order::Greater
    }
}

/// How two byte strings compare from position `i` on: by the first byte
/// in which they differ, and else by length.
pub open spec fn byte_order(a: Seq<u8>, b: Seq<u8>, i: nat) -> Order
    decreases a.len() - i,
{
    if i >= a.len() || i >= b.len() {
        int_order(a.len() as int, b.len() as int)
    } else if a[i as int] != b[i as int] {
        int_order(a[i as int] as int, b[i as int] as int)
    } else {
        byte_order(a, b, i + 1)
    }
}

/// How two values of one ordered kind compare. Text is ordered by its
/// UTF-8 bytes, and a NaN has no place in the order.
pub open spec fn ordering(a: ValueView, b: ValueView) -> Result<Order, ErrorView> {
    match (a, b) {
        (ValueView::Int(x), ValueView::Int(y)) => Ok(int_order(x as int, y as int)),
        (ValueView::Float(x), ValueView::Float(y)) => if x.nan() || y.nan() {
            Err(refusal("comparison involving NaN"@))
        } else {
            Ok(int_order(x.rank(), y.rank()))
        },
        (ValueView::Char(x), ValueView::Char(y)) => Ok(int_order(x as int, y as int)),
        (ValueView::Str(x), ValueView::Str(y)) => Ok(
            byte_order(vstd::utf8::encode_utf8(x), vstd::utf8::encode_utf8(y), 0),
        ),
        (ValueView::Bool(x), ValueView::Bool(y)) => Ok(
            if x == y {
                Order::Equal
            } else if y {
                Order::Less
            } else {
                Order::Greater
            },
        ),
        (a, b) => Err(between("ordered comparison of "@, a, " with "@, b)),
    }
}

/// Reports an operation on two values whose kinds it does not fit.
fn mismatch(attempt: &str, a: &Value, joined: &str, b: &Value) -> (r: InterpreterError)
    ensures
        r@ == between(attempt@, a@, joined@, b@),
{
    let mut message = framed(attempt, kind_name(a), joined);
    message.append(kind_name(b));
    invalid_message(message)
}

/// The value of a literal.
pub fn const_value(c: &Const) -> (r: Value)
    ensures
        r@ == constant(*c),
{
    match c {
        Const::Int(v) => Value::Int(
            #[verifier::truncate]
            (*v as i128),
        ),
        Const::Float(v) => Value::Float(*v),
        Const::Bool(v) => Value::Bool(*v),
        Const::Char(v) => Value::Char(*v),
        Const::Str(v) => Value::Str(v.clone()),
        Const::Unit => Value::Unit,
    }
}

/// Adds, subtracts or multiplies two numbers of one kind. Integers wrap
/// around.
pub fn arith(op: ArithOp, a: &Value, b: &Value) -> (r: Result<Value, InterpreterError>)
    ensures
        evaluated(r) == arithmetic(op, a@, b@),
{
    match (a, b) {
        (Value::Int(x), Value::Int(y)) => Ok(
            Value::Int(
                match op {
                    ArithOp::Add => x.wrapping_add(*y),
                    ArithOp::Sub => x.wrapping_sub(*y),
                    ArithOp::Mul => x.wrapping_mul(*y),
                },
            ),
        ),
        (Value::Float(x), Value::Float(y)) => Ok(
            Value::Float(
                match op {
                    ArithOp::Add => x.add_to(*y),
                    ArithOp::Sub => x.subtract(*y),
                    ArithOp::Mul => x.multiply(*y),
                },
            ),
        ),
        _ => Err(mismatch("arithmetic between ", a, " and ", b)),
    }
}

/// Divides two numbers of one kind, or gives the remainder.
pub fn div(a: &Value, b: &Value, remainder: bool) -> (r: Result<Value, InterpreterError>)
    ensures
        evaluated(r) == division(a@, b@, remainder),
{
    match (a, b) {
        (Value::Int(x), Value::Int(y)) => {
            if *y == 0 {
                return Err(InterpreterError::DivisionByZero);
            }
            let result: i128 = if remainder {
                match x.checked_rem(*y) {
                    Some(r) => r,
                    None => 0,
                }
            } else {
                match x.checked_div(*y) {
                    Some(q) => q,
                    None => *x,
                }
            };
            Ok(Value::Int(result))
        },
        (Value::Float(x), Value::Float(y)) => Ok(
            Value::Float(
                if remainder {
                    x.remainder(*y)
                } else {
                    x.divide(*y)
                },
            ),
        ),
        _ => Err(mismatch("division between ", a, " and ", b)),
    }
}

/// The negative of a number.
pub fn neg(a: &Value) -> (r: Result<Value, InterpreterError>)
    ensures
        evaluated(r) == negation(a@),
{
    match a {
        Value::Int(x) => Ok(Value::Int(0i128.wrapping_sub(*x))),
        Value::Float(x) => Ok(Value::Float(x.negate())),
        other => {
            let mut message = "cannot negate ".to_owned();
            message.append(kind_name(other));
            Err(invalid_message(message))
        },
    }
}

/// The complement of a truth value or of an integer's bits.
pub fn not(a: &Value) -> (r: Result<Value, InterpreterError>)
    ensures
        evaluated(r) == complement(a@),
{
    match a {
        Value::Bool(x) => Ok(Value::Bool(!*x)),
        Value::Int(x) => Ok(Value::Int(-1 - *x)),
        other => {
            let mut message = "cannot apply `not` to ".to_owned();
            message.append(kind_name(other));
            Err(invalid_message(message))
        },
    }
}

/// Combines the bits of two integers.
pub fn bitop(op: BitOp, a: &Value, b: &Value) -> (r: Result<Value, InterpreterError>)
    ensures
        evaluated(r) == bitwise(op, a@, b@),
{
    match (a, b) {
        (Value::Int(x), Value::Int(y)) => Ok(
            Value::Int(
                match op {
                    BitOp::And => *x & *y,
                    BitOp::Or => *x | *y,
                    BitOp::Xor => *x ^ *y,
                },
            ),
        ),
        _ => Err(mismatch("bitwise operator between ", a, " and ", b)),
    }
}

/// Shifts one integer by another.
pub fn shift(op: ShiftOp, a: &Value, b: &Value) -> (r: Result<Value, InterpreterError>)
    ensures
        evaluated(r) == shifted(op, a@, b@),
{
    match (a, b) {
        (Value::Int(x), Value::Int(y)) => {
            if *y < 0 || *y >= 128 {
                return Err(invalid("shift amount out of range"));
            }
            let amount: u32 = *y as u32;
            Ok(
                Value::Int(
                    match op {
                        ShiftOp::Left => *x << amount,
                        ShiftOp::Right => *x >> amount,
                    },
                ),
            )
        },
        _ => Err(mismatch("shift between ", a, " and ", b)),
    }
}

/// Whether two values of one primitive kind are equal.
pub fn eq(a: &Value, b: &Value) -> (r: Result<bool, InterpreterError>)
    ensures
        match r {
            Ok(answer) => equality(a@, b@) == Ok::<bool, ErrorView>(answer),
            Err(e) => equality(a@, b@) == Err::<bool, ErrorView>(e@),
        },
{
    match (a, b) {
        (Value::Int(x), Value::Int(y)) => Ok(*x == *y),
        (Value::Float(x), Value::Float(y)) => Ok(x.same(*y)),
        (Value::Bool(x), Value::Bool(y)) => Ok(*x == *y),
        (Value::Char(x), Value::Char(y)) => Ok(*x == *y),
        (Value::Str(x), Value::Str(y)) => Ok(*x == *y),
        (Value::Unit, Value::Unit) => Ok(true),
        _ => Err(mismatch("compared ", a, " with ", b)),
    }
}

/// How two texts compare, by their UTF-8 bytes.
fn text_order(a: &str, b: &str) -> (r: Order)
    ensures
        r == byte_order(vstd::utf8::encode_utf8(a@), vstd::utf8::encode_utf8(b@), 0),
{
    let x = a.as_bytes();
    let y = b.as_bytes();
    let mut i: usize = 0;
    while i < x.len() && i < y.len()
        invariant
            i <= x@.len(),
            i <= y@.len(),
            x@ == vstd::utf8::encode_utf8(a@),
            y@ == vstd::utf8::encode_utf8(b@),
            byte_order(x@, y@, 0) == byte_order(x@, y@, i as nat),
        decreases x@.len() - i,
    {
        if x[i] != y[i] {
            return if x[i] < y[i] {
                Order::Less
            } else {
                Order::Greater
            };
        }
        i = i + 1;
    }
    if x.len() < y.len() {
        Order::Less
    } else if x.len() == y.len() {
        Order::Equal
    } else {
        Order::Greater
    }
}

/// How two values of one ordered kind compare.
pub fn ord(a: &Value, b: &Value) -> (r: Result<Order, InterpreterError>)
    ensures
        match r {
            Ok(order) => ordering(a@, b@) == Ok::<Order, ErrorView>(order),
            Err(e) => ordering(a@, b@) == Err::<Order, ErrorView>(e@),
        },
{
    match (a, b) {
        (Value::Int(x), Value::Int(y)) => Ok(
            if *x < *y {
                Order::Less
            } else if *x == *y {
                Order::Equal
            } else {
                Order::Greater
            },
        ),
        (Value::Float(x), Value::Float(y)) => {
            if x.is_nan() || y.is_nan() {
                return Err(invalid("comparison involving NaN"));
            }
            Ok(
                if x.below(*y) {
                    Order::Less
                } else if x.same(*y) {
                    Order::Equal
                } else {
                    Order::Greater
                },
            )
        },
        (Value::Char(x), Value::Char(y)) => Ok(
            if *x < *y {
                Order::Less
            } else if *x == *y {
                Order::Equal
            } else {
                Order::Greater
            },
        ),
        (Value::Str(x), Value::Str(y)) => Ok(text_order(x.as_str(), y.as_str())),
        (Value::Bool(x), Value::Bool(y)) => Ok(
            if *x == *y {
                Order::Equal
            } else if *y {
                Order::Less
            } else {
                Order::Greater
            },
        ),
        _ => Err(mismatch("ordered comparison of ", a, " with ", b)),
    }
}

} // verus!
