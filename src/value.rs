use vstd::prelude::*;

verus! {

/// The primitive functions that every frame's scope holds.
#[derive(Clone, Copy, Debug, PartialEq, Eq, Structural)]
pub enum Primitive {
    /// Emits its arguments, then a line break; returns the none value.
    Print,
    /// The number of elements of a list or of characters of a text.
    Len,
}

/// A runtime value. Texts and lists live in tables owned by the interpreter
/// and are referred to by index: a list index is shared by every alias, so
/// mutation through one holder is seen by all of them.
#[derive(Clone, Copy, Debug, PartialEq, Eq, Structural)]
pub enum Value {
    Int(i64),
    Text(usize),
    Bool(bool),
    NoneValue,
    List(usize),
    Slice(Option<i64>, Option<i64>, Option<i64>),
    Code(usize),
    Function(usize),
    Primitive(Primitive),
    /// An iterator over the list with the given handle, at the given position.
    Iter(usize, usize),
}

/// Why a run stopped.
#[derive(Clone, Copy, Debug, PartialEq, Eq, Structural)]
pub enum ErrorKind {
    MalformedBytecode,
    UnboundName,
    TypeMismatch,
    UnsupportedInstruction,
    UserRaise(Value),
    StackUnderflow,
    ArithmeticError,
    IndexOutOfRange,
    StepLimit,
    TooDeep,
}

#[derive(Clone, Copy, Debug, PartialEq, Eq, Structural)]
pub enum BinaryOp {
    Add,
    Subtract,
    Multiply,
    TrueDivide,
    Modulo,
    Power,
}

#[derive(Clone, Copy, Debug, PartialEq, Eq, Structural)]
pub enum UnaryOp {
    Negate,
    Identity,
}

pub open spec fn in_i64(x: int) -> bool {
    i64::MIN <= x <= i64::MAX
}

pub open spec fn pow(base: int, exp: nat) -> int
    decreases exp,
{
    if exp == 0 {
        1
    } else {
        base * pow(base, (exp - 1) as nat)
    }
}

/// Remainder with the sign of the divisor (floored division).
pub open spec fn floor_mod(a: int, b: int) -> int {
    let r = a % b;
    if b < 0 && r != 0 {
        r + b
    } else {
        r
    }
}

/// The mathematical result of an integer operation; `None` where it is undefined.
pub open spec fn int_op(op: BinaryOp, a: int, b: int) -> Option<int> {
    match op {
        BinaryOp::Add => Some(a + b),
        BinaryOp::Subtract => Some(a - b),
        BinaryOp::Multiply => Some(a * b),
        BinaryOp::Modulo => if b == 0 {
            None
        } else {
            Some(floor_mod(a, b))
        },
        BinaryOp::Power => if b < 0 {
            None
        } else {
            Some(pow(a, b as nat))
        },
        BinaryOp::TrueDivide => None,
    }
}

/// What a binary operator yields on two values.
pub open spec fn binary_result(op: BinaryOp, x: Value, y: Value) -> Result<Value, ErrorKind> {
    match (x, y) {
        (Value::Int(a), Value::Int(b)) => if op == BinaryOp::TrueDivide {
            Err(ErrorKind::TypeMismatch)
        } else {
            match int_op(op, a as int, b as int) {
                Some(r) => if in_i64(r) {
                    Ok(Value::Int(r as i64))
                } else {
                    Err(ErrorKind::ArithmeticError)
                },
                None => Err(ErrorKind::ArithmeticError),
            }
        },
        _ => Err(ErrorKind::TypeMismatch),
    }
}

/// What a unary operator yields on a value.
pub open spec fn unary_result(op: UnaryOp, x: Value) -> Result<Value, ErrorKind> {
    match x {
        Value::Int(a) => match op {
            UnaryOp::Identity => Ok(Value::Int(a)),
            UnaryOp::Negate => if in_i64(-a) {
                Ok(Value::Int((-a) as i64))
            } else {
                Err(ErrorKind::ArithmeticError)
            },
        },
        _ => Err(ErrorKind::TypeMismatch),
    }
}

proof fn lemma_pow_grows(a: int, k: nat, e: nat)
    requires
        a >= 2 || a <= -2,
        k < e,
    ensures
        abs(pow(a, e)) >= 2 * abs(pow(a, k)),
    decreases e - k,
{
    let p = pow(a, (e - 1) as nat);
    assert(abs(a * p) == abs(a) * abs(p)) by (nonlinear_arith);
    assert(abs(a) * abs(p) >= 2 * abs(p)) by (nonlinear_arith)
        requires
            abs(a) >= 2,
    ;
    if k + 1 < e {
        lemma_pow_grows(a, k, (e - 1) as nat);
    }
}

pub open spec fn abs(x: int) -> int {
    if x < 0 {
        -x
    } else {
        x
    }
}

proof fn lemma_pow_unit(a: int, e: nat)
    requires
        -1 <= a <= 1,
    ensures
        -1 <= pow(a, e) <= 1,
    decreases e,
{
    if e > 0 {
        lemma_pow_unit(a, (e - 1) as nat);
        let p = pow(a, (e - 1) as nat);
        assert(-1 <= a * p <= 1) by (nonlinear_arith)
            requires
                -1 <= a <= 1,
                -1 <= p <= 1,
        ;
    }
}

fn int_power(a: i64, e: i64) -> (r: Result<Value, ErrorKind>)
    ensures
        r == binary_result(BinaryOp::Power, Value::Int(a), Value::Int(e)),
{
    if e < 0 {
        return Err(ErrorKind::ArithmeticError);
    }
    let mut acc: i64 = 1;
    let mut i: i64 = 0;
    while i < e
        invariant
            0 <= i <= e,
            acc as int == pow(a as int, i as nat),
        decreases e - i,
    {
        match acc.checked_mul(a) {
            Some(v) => {
                acc = v;
                i = i + 1;
            },
            None => {
                proof {
                    let k = (i + 1) as nat;
                    assert(pow(a as int, k) == a * pow(a as int, i as nat));
                    assert(!in_i64(pow(a as int, k)));
                    if -1 <= a <= 1 {
                        lemma_pow_unit(a as int, k);
                    }
                    if k < e {
                        lemma_pow_grows(a as int, k, e as nat);
                    }
                }
                return Err(ErrorKind::ArithmeticError);
            },
        }
    }
    Ok(Value::Int(acc))
}

/// Applies a binary operator; unsupported tag pairs are a `TypeMismatch`.
pub fn binary_op(op: BinaryOp, x: Value, y: Value) -> (r: Result<Value, ErrorKind>)
    ensures
        r == binary_result(op, x, y),
{
    match (x, y) {
        (Value::Int(a), Value::Int(b)) => match op {
            BinaryOp::Add => match a.checked_add(b) {
                Some(v) => Ok(Value::Int(v)),
                None => Err(ErrorKind::ArithmeticError),
            },
            BinaryOp::Subtract => match a.checked_sub(b) {
                Some(v) => Ok(Value::Int(v)),
                None => Err(ErrorKind::ArithmeticError),
            },
            BinaryOp::Multiply => match a.checked_mul(b) {
                Some(v) => Ok(Value::Int(v)),
                None => Err(ErrorKind::ArithmeticError),
            },
            BinaryOp::TrueDivide => Err(ErrorKind::TypeMismatch),
            BinaryOp::Modulo => {
                if b == 0 {
                    Err(ErrorKind::ArithmeticError)
                } else if b == -1 {
                    assert(a as int % -1 == 0);
                    Ok(Value::Int(0))
                } else {
                    match a.checked_rem_euclid(b) {
                        Some(m) => {
                            if b < 0 && m != 0 {
                                Ok(Value::Int(m + b))
                            } else {
                                Ok(Value::Int(m))
                            }
                        },
                        None => Err(ErrorKind::ArithmeticError),
                    }
                }
            },
            BinaryOp::Power => int_power(a, b),
        },
        _ => Err(ErrorKind::TypeMismatch),
    }
}

/// Applies a unary operator; anything but an integer is a `TypeMismatch`.
pub fn unary_op(op: UnaryOp, x: Value) -> (r: Result<Value, ErrorKind>)
    ensures
        r == unary_result(op, x),
{
    match x {
        Value::Int(a) => match op {
            UnaryOp::Identity => Ok(Value::Int(a)),
            UnaryOp::Negate => if a == i64::MIN {
                Err(ErrorKind::ArithmeticError)
            } else {
                Ok(Value::Int(-a))
            },
        },
        _ => Err(ErrorKind::TypeMismatch),
    }
}

/// Adding two integers gives an integer: their sum, wherever it fits.
pub proof fn lemma_int_add_stays_int(a: i64, b: i64)
    ensures
        in_i64(a + b) ==> binary_result(BinaryOp::Add, Value::Int(a), Value::Int(b)) == Ok::<
            Value,
            ErrorKind,
        >(Value::Int((a + b) as i64)),
        !in_i64(a + b) ==> binary_result(BinaryOp::Add, Value::Int(a), Value::Int(b)) == Err::<
            Value,
            ErrorKind,
        >(ErrorKind::ArithmeticError),
{
}

/// No binary operator accepts a text and a list, in either order.
pub proof fn lemma_text_list_mismatch(op: BinaryOp, t: usize, h: usize)
    ensures
        binary_result(op, Value::Text(t), Value::List(h)) == Err::<Value, ErrorKind>(ErrorKind::TypeMismatch),
        binary_result(op, Value::List(h), Value::Text(t)) == Err::<Value, ErrorKind>(ErrorKind::TypeMismatch),
{
}

} // verus!
