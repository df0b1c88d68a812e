//! Operators applied to values: arithmetic, comparison and three-valued
//! logic, with SQL `NULL` propagation.

use crate::types::{DataValue, Datum, LogicalType, Payload, TypeError, value_result, DECIMAL_UNIT};
use vstd::prelude::*;
use vstd::std_specs::iter::IteratorSpec;

verus! {

/// The operators that take two operands.
#[derive(Clone, Copy, Debug, PartialEq, Eq, Hash, Structural)]
pub enum BinaryOperator {
    Plus,
    Minus,
    Multiply,
    Divide,
    Modulo,
    Gt,
    Lt,
    GtEq,
    LtEq,
    Eq,
    NotEq,
    And,
    Or,
    Xor,
}

/// The operators that take one operand.
#[derive(Clone, Copy, Debug, PartialEq, Eq, Hash, Structural)]
pub enum UnaryOperator {
    Plus,
    Minus,
    Not,
}

impl BinaryOperator {
    /// `+ - * / %`.
    pub open spec fn is_arithmetic(self) -> bool {
        self == BinaryOperator::Plus || self == BinaryOperator::Minus || self
            == BinaryOperator::Multiply || self == BinaryOperator::Divide || self
            == BinaryOperator::Modulo
    }

    /// `AND`, `OR`, `XOR`.
    pub open spec fn is_logical(self) -> bool {
        self == BinaryOperator::And || self == BinaryOperator::Or || self == BinaryOperator::Xor
    }

    /// `> < >= <= = <>`.
    pub open spec fn is_comparison(self) -> bool {
        !self.is_arithmetic() && !self.is_logical()
    }

    /// Executable form of [`Self::is_arithmetic`].
    pub fn arithmetic(&self) -> (r: bool)
        ensures
            r == self.is_arithmetic(),
    {
        match self {
            BinaryOperator::Plus | BinaryOperator::Minus | BinaryOperator::Multiply
            | BinaryOperator::Divide | BinaryOperator::Modulo => true,
            _ => false,
        }
    }

    /// Executable form of [`Self::is_logical`].
    pub fn logical(&self) -> (r: bool)
        ensures
            r == self.is_logical(),
    {
        match self {
            BinaryOperator::And | BinaryOperator::Or | BinaryOperator::Xor => true,
            _ => false,
        }
    }
}

/// The absolute value.
pub open spec fn abs(a: int) -> int {
    if a < 0 {
        -a
    } else {
        a
    }
}

/// The quotient of `a` by `b`, rounded towards zero.
pub open spec fn trunc_div(a: int, b: int) -> int
    recommends
        b != 0,
{
    if (a >= 0) == (b > 0) {
        abs(a) / abs(b)
    } else {
        -(abs(a) / abs(b))
    }
}

/// The remainder that goes with [`trunc_div`]; it has the sign of `a`.
pub open spec fn trunc_rem(a: int, b: int) -> int
    recommends
        b != 0,
{
    if a >= 0 {
        abs(a) % abs(b)
    } else {
        -(abs(a) % abs(b))
    }
}

/// Whether the text `a` comes before the text `b`: at the first position
/// where they differ `a` has the smaller character, or `a` is a proper
/// prefix of `b`.
pub open spec fn text_lt(a: Seq<char>, b: Seq<char>) -> bool
    decreases a.len(),
{
    if b.len() == 0 {
        false
    } else if a.len() == 0 {
        true
    } else if a[0] != b[0] {
        (a[0] as u32) < (b[0] as u32)
    } else {
        text_lt(a.skip(1), b.skip(1))
    }
}

/// Whether payload `x` is ordered before payload `y`; both are of the same
/// kind.
pub open spec fn payload_lt(x: Payload, y: Payload) -> bool {
    match (x, y) {
        (Payload::Bool(a), Payload::Bool(b)) => !a && b,
        (Payload::Int(a), Payload::Int(b)) => a < b,
        (Payload::Text(a), Payload::Text(b)) => text_lt(a, b),
        _ => false,
    }
}

/// The exact result of an arithmetic operator on two integers of the
/// integer type, or on two counts of `Decimal` units.
pub open spec fn arith(op: BinaryOperator, decimal: bool, a: int, b: int) -> Result<
    int,
    TypeError,
> {
    match op {
        BinaryOperator::Plus => Ok(a + b),
        BinaryOperator::Minus => Ok(a - b),
        BinaryOperator::Multiply => if decimal {
            Ok(trunc_div(a * b, DECIMAL_UNIT as int))
        } else {
            Ok(a * b)
        },
        BinaryOperator::Divide => if b == 0 {
            Err(TypeError::DivisionByZero)
        } else if decimal {
            Ok(trunc_div(a * DECIMAL_UNIT, b))
        } else {
            Ok(trunc_div(a, b))
        },
        _ => if b == 0 {
            Err(TypeError::DivisionByZero)
        } else {
            Ok(trunc_rem(a, b))
        },
    }
}

/// The outcome of a comparison operator given how the operands are ordered.
pub open spec fn compare(op: BinaryOperator, lt: bool, gt: bool) -> bool {
    match op {
        BinaryOperator::Gt => gt,
        BinaryOperator::Lt => lt,
        BinaryOperator::GtEq => !lt,
        BinaryOperator::LtEq => !gt,
        BinaryOperator::Eq => !lt && !gt,
        _ => lt || gt,
    }
}

/// Three-valued logic: `None` is the unknown truth value.
pub open spec fn logic(op: BinaryOperator, a: Option<bool>, b: Option<bool>) -> Option<bool> {
    match op {
        BinaryOperator::And => if a == Some(false) || b == Some(false) {
            Some(false)
        } else if a is None || b is None {
            None
        } else {
            Some(true)
        },
        BinaryOperator::Or => if a == Some(true) || b == Some(true) {
            Some(true)
        } else if a is None || b is None {
            None
        } else {
            Some(false)
        },
        _ => match (a, b) {
            (Some(x), Some(y)) => Some(x != y),
            _ => None,
        },
    }
}

/// The truth value a Boolean or untyped `NULL` carries.
pub open spec fn truth(d: Datum) -> Option<bool> {
    match d.payload {
        Some(Payload::Bool(b)) => Some(b),
        _ => None,
    }
}

/// A Boolean from a truth value.
pub open spec fn of_truth(v: Option<bool>) -> Datum {
    match v {
        Some(b) => Datum::boolean(b),
        None => Datum::null(LogicalType::Boolean),
    }
}

/// A binary operator applied to two operands that were both cast to their
/// common type `u`.
///
/// Arithmetic is defined on numeric types and yields a value of type `u`,
/// `NULL` if an operand is `NULL`. It fails with `Overflow` when the exact
/// result is outside `u` and with `DivisionByZero`. Comparison yields a
/// Boolean, `NULL` if an operand is `NULL`. Logic is defined on Booleans and
/// is three-valued. On any other type an operator fails with `InvalidType`.
pub open spec fn apply_binary(op: BinaryOperator, u: LogicalType, x: Datum, y: Datum) -> Result<
    Datum,
    TypeError,
> {
    if op.is_arithmetic() {
        if u == LogicalType::SqlNull {
            Ok(Datum::null(u))
        } else if !u.is_numeric() {
            Err(TypeError::InvalidType)
        } else {
            match (x.payload, y.payload) {
                (Some(Payload::Int(a)), Some(Payload::Int(b))) => match arith(
                    op,
                    u == LogicalType::Decimal,
                    a,
                    b,
                ) {
                    Ok(n) => if u.fits(n) {
                        Ok(Datum::of_int(u, n))
                    } else {
                        Err(TypeError::Overflow)
                    },
                    Err(e) => Err(e),
                },
                _ => Ok(Datum::null(u)),
            }
        }
    } else if op.is_logical() {
        if u == LogicalType::Boolean || u == LogicalType::SqlNull {
            Ok(of_truth(logic(op, truth(x), truth(y))))
        } else {
            Err(TypeError::InvalidType)
        }
    } else {
        match (x.payload, y.payload) {
            (Some(a), Some(b)) => Ok(
                Datum::boolean(compare(op, payload_lt(a, b), payload_lt(b, a))),
            ),
            _ => Ok(Datum::null(LogicalType::Boolean)),
        }
    }
}

/// A binary operator applied to two values: both are cast to the common
/// type of their types, then the operator is applied.
pub open spec fn binary_op_spec(op: BinaryOperator, a: Datum, b: Datum) -> Result<
    Datum,
    TypeError,
> {
    match a.ty.lub(b.ty) {
        Err(e) => Err(e),
        Ok(u) => match a.cast(u) {
            Err(e) => Err(e),
            Ok(x) => match b.cast(u) {
                Err(e) => Err(e),
                Ok(y) => apply_binary(op, u, x, y),
            },
        },
    }
}

/// A unary operator applied to a value.
///
/// `NOT` negates a Boolean, and `+` and `-` apply to numeric values; each
/// keeps `NULL`. Negation fails with `Overflow` when the result is outside
/// the type, and an operator on any other type fails with `InvalidType`.
pub open spec fn unary_op_spec(op: UnaryOperator, a: Datum) -> Result<Datum, TypeError> {
    match op {
        UnaryOperator::Not => if a.ty == LogicalType::Boolean || a.ty == LogicalType::SqlNull {
            Ok(
                of_truth(
                    match truth(a) {
                        Some(b) => Some(!b),
                        None => None,
                    },
                ),
            )
        } else {
            Err(TypeError::InvalidType)
        },
        UnaryOperator::Plus => if a.ty.is_numeric() || a.ty == LogicalType::SqlNull {
            Ok(a)
        } else {
            Err(TypeError::InvalidType)
        },
        UnaryOperator::Minus => if a.ty == LogicalType::SqlNull {
            Ok(a)
        } else if a.ty.is_numeric() {
            match a.payload {
                Some(Payload::Int(n)) => if a.ty.fits(-n) {
                    Ok(Datum::of_int(a.ty, -n))
                } else {
                    Err(TypeError::Overflow)
                },
                _ => Ok(Datum::null(a.ty)),
            }
        } else {
            Err(TypeError::InvalidType)
        },
    }
}

/// `a / b` rounded towards zero.
fn div_towards_zero(a: i128, b: i128) -> (r: i128)
    requires
        b != 0,
        a > i128::MIN,
        b > i128::MIN,
    ensures
        r == trunc_div(a as int, b as int),
{
    let na: i128 = if a < 0 {
        -a
    } else {
        a
    };
    let nb: i128 = if b < 0 {
        -b
    } else {
        b
    };
    let q: i128 = na / nb;
    assert(0 <= q <= na) by (nonlinear_arith)
        requires
            q == na as int / nb as int,
            na >= 0,
            nb > 0,
    ;
    if (a >= 0) == (b > 0) {
        q
    } else {
        -q
    }
}

/// The remainder of `a / b` rounded towards zero.
fn rem_towards_zero(a: i128, b: i128) -> (r: i128)
    requires
        b != 0,
        a > i128::MIN,
        b > i128::MIN,
    ensures
        r == trunc_rem(a as int, b as int),
{
    let na: i128 = if a < 0 {
        -a
    } else {
        a
    };
    let nb: i128 = if b < 0 {
        -b
    } else {
        b
    };
    let m: i128 = na % nb;
    assert(0 <= m < nb) by (nonlinear_arith)
        requires
            m == na as int % nb as int,
            na >= 0,
            nb > 0,
    ;
    if a >= 0 {
        m
    } else {
        -m
    }
}

spec fn int_result(r: Result<i128, TypeError>) -> Result<int, TypeError> {
    match r {
        Ok(n) => Ok(n as int),
        Err(e) => Err(e),
    }
}

/// Executable form of [`arith`].
fn arith_exec(op: &BinaryOperator, decimal: bool, a: i64, b: i64) -> (r: Result<i128, TypeError>)
    requires
        op.is_arithmetic(),
    ensures
        int_result(r) == arith(*op, decimal, a as int, b as int),
{
    let wa: i128 = a as i128;
    let wb: i128 = b as i128;
    match op {
        BinaryOperator::Plus => Ok(wa + wb),
        BinaryOperator::Minus => Ok(wa - wb),
        BinaryOperator::Multiply => {
            assert(-0x4000_0000_0000_0000_0000_0000_0000_0000 <= wa * wb
                <= 0x4000_0000_0000_0000_0000_0000_0000_0000) by (nonlinear_arith)
                requires
                    -0x8000_0000_0000_0000 <= wa <= 0x8000_0000_0000_0000,
                    -0x8000_0000_0000_0000 <= wb <= 0x8000_0000_0000_0000,
            ;
            let p: i128 = wa * wb;
            if decimal {
                Ok(div_towards_zero(p, DECIMAL_UNIT as i128))
            } else {
                Ok(p)
            }
        },
        BinaryOperator::Divide => if b == 0 {
            Err(TypeError::DivisionByZero)
        } else if decimal {
            Ok(div_towards_zero(wa * (DECIMAL_UNIT as i128), wb))
        } else {
            Ok(div_towards_zero(wa, wb))
        },
        _ => if b == 0 {
            Err(TypeError::DivisionByZero)
        } else {
            Ok(rem_towards_zero(wa, wb))
        },
    }
}

/// Whether the text `a` comes before the text `b`; see [`text_lt`].
fn text_less(a: &String, b: &String) -> (r: bool)
    ensures
        r == text_lt(a@, b@),
{
    broadcast use {vstd::string::next_postcondition, vstd::string::axiom_spec_iter};

    let mut x = a.as_str().chars();
    let mut y = b.as_str().chars();
    loop
        invariant
            text_lt(a@, b@) == text_lt(x.remaining(), y.remaining()),
            x.decrease() is Some,
        decreases x.decrease()->Some_0,
    {
        let ghost xs = x.remaining();
        let ghost ys = y.remaining();
        let cb = match y.next() {
            None => {
                return false;
            },
            Some(c) => c,
        };
        let ca = match x.next() {
            None => {
                return true;
            },
            Some(c) => c,
        };
        assert(x.remaining() =~= xs.skip(1));
        assert(y.remaining() =~= ys.skip(1));
        if ca != cb {
            return (ca as u32) < (cb as u32);
        }
    }
}

/// Whether the payload of `x` is ordered before that of `y`.
pub(crate) fn value_lt(x: &DataValue, y: &DataValue) -> (r: bool)
    requires
        !x@.is_null(),
        !y@.is_null(),
    ensures
        r == payload_lt(x@.payload->Some_0, y@.payload->Some_0),
{
    match (x, y) {
        (DataValue::Boolean(Some(a)), DataValue::Boolean(Some(b))) => !*a && *b,
        (DataValue::Utf8(Some(a)), DataValue::Utf8(Some(b))) => text_less(a, b),
        _ => match (x.int_payload(), y.int_payload()) {
            (Some(a), Some(b)) => a < b,
            _ => false,
        },
    }
}

fn truth_of(x: &DataValue) -> (r: Option<bool>)
    ensures
        r == truth(x@),
{
    match x {
        DataValue::Boolean(v) => *v,
        _ => None,
    }
}

fn logic_exec(op: &BinaryOperator, a: Option<bool>, b: Option<bool>) -> (r: Option<bool>)
    requires
        op.is_logical(),
    ensures
        r == logic(*op, a, b),
{
    match op {
        BinaryOperator::And => match (a, b) {
            (Some(false), _) => Some(false),
            (_, Some(false)) => Some(false),
            (Some(true), Some(true)) => Some(true),
            _ => None,
        },
        BinaryOperator::Or => match (a, b) {
            (Some(true), _) => Some(true),
            (_, Some(true)) => Some(true),
            (Some(false), Some(false)) => Some(false),
            _ => None,
        },
        _ => match (a, b) {
            (Some(x), Some(y)) => Some(x != y),
            _ => None,
        },
    }
}

fn compare_exec(op: &BinaryOperator, lt: bool, gt: bool) -> (r: bool)
    ensures
        r == compare(*op, lt, gt),
{
    match op {
        BinaryOperator::Gt => gt,
        BinaryOperator::Lt => lt,
        BinaryOperator::GtEq => !lt,
        BinaryOperator::LtEq => !gt,
        BinaryOperator::Eq => !lt && !gt,
        _ => lt || gt,
    }
}

/// Executable form of [`apply_binary`].
fn apply_binary_exec(op: &BinaryOperator, u: &LogicalType, x: &DataValue, y: &DataValue) -> (r:
    Result<DataValue, TypeError>)
    ensures
        value_result(r) == apply_binary(*op, *u, x@, y@),
{
    if op.arithmetic() {
        if *u == LogicalType::SqlNull {
            Ok(DataValue::Null)
        } else if !u.numeric() {
            Err(TypeError::InvalidType)
        } else {
            match (x.int_payload(), y.int_payload()) {
                (Some(a), Some(b)) => match arith_exec(op, *u == LogicalType::Decimal, a, b) {
                    Ok(n) => match DataValue::from_int(u, n) {
                        Some(v) => Ok(v),
                        None => Err(TypeError::Overflow),
                    },
                    Err(e) => Err(e),
                },
                _ => Ok(DataValue::none(u)),
            }
        }
    } else if op.logical() {
        if *u == LogicalType::Boolean || *u == LogicalType::SqlNull {
            Ok(DataValue::Boolean(logic_exec(op, truth_of(x), truth_of(y))))
        } else {
            Err(TypeError::InvalidType)
        }
    } else if x.is_null() || y.is_null() {
        Ok(DataValue::Boolean(None))
    } else {
        Ok(DataValue::Boolean(Some(compare_exec(op, value_lt(x, y), value_lt(y, x)))))
    }
}

/// Applies a binary operator to two values; see [`binary_op_spec`].
pub fn binary_op(op: &BinaryOperator, left: &DataValue, right: &DataValue) -> (r: Result<
    DataValue,
    TypeError,
>)
    ensures
        value_result(r) == binary_op_spec(*op, left@, right@),
{
    match LogicalType::max_logical_type(&left.logical_type(), &right.logical_type()) {
        Err(e) => Err(e),
        Ok(u) => match left.cast(&u) {
            Err(e) => Err(e),
            Ok(x) => match right.cast(&u) {
                Err(e) => Err(e),
                Ok(y) => apply_binary_exec(op, &u, &x, &y),
            },
        },
    }
}

/// Applies a unary operator to a value; see [`unary_op_spec`].
pub fn unary_op(op: &UnaryOperator, value: &DataValue) -> (r: Result<DataValue, TypeError>)
    ensures
        value_result(r) == unary_op_spec(*op, value@),
{
    let ty = value.logical_type();
    match op {
        UnaryOperator::Not => if ty == LogicalType::Boolean || ty == LogicalType::SqlNull {
            Ok(
                DataValue::Boolean(
                    match truth_of(value) {
                        Some(b) => Some(!b),
                        None => None,
                    },
                ),
            )
        } else {
            Err(TypeError::InvalidType)
        },
        UnaryOperator::Plus => if ty.numeric() || ty == LogicalType::SqlNull {
            Ok(value.duplicate())
        } else {
            Err(TypeError::InvalidType)
        },
        UnaryOperator::Minus => if ty == LogicalType::SqlNull {
            Ok(value.duplicate())
        } else if ty.numeric() {
            match value.int_payload() {
                Some(n) => match DataValue::from_int(&ty, -(n as i128)) {
                    Some(v) => Ok(v),
                    None => Err(TypeError::Overflow),
                },
                None => Ok(DataValue::none(&ty)),
            }
        } else {
            Err(TypeError::InvalidType)
        },
    }
}

/// A binary operator that succeeds yields a well-formed value: of the common
/// type of the operands if it is arithmetic, and a Boolean otherwise.
pub proof fn lemma_binary_op_type(op: BinaryOperator, a: Datum, b: Datum)
    requires
        a.wf(),
        b.wf(),
        binary_op_spec(op, a, b) is Ok,
    ensures
        binary_op_spec(op, a, b)->Ok_0.wf(),
        op.is_arithmetic() ==> a.ty.lub(b.ty) == Ok::<LogicalType, TypeError>(
            binary_op_spec(op, a, b)->Ok_0.ty,
        ),
        !op.is_arithmetic() ==> binary_op_spec(op, a, b)->Ok_0.ty == LogicalType::Boolean,
{
}

/// `NULL AND false` is `false` and `NULL OR true` is `true`, whichever side
/// the `NULL` is on.
pub proof fn lemma_null_logic(a: Datum)
    requires
        a.ty == LogicalType::Boolean || a.ty == LogicalType::SqlNull,
        a.is_null(),
    ensures
        binary_op_spec(BinaryOperator::And, a, Datum::boolean(false)) == Ok::<Datum, TypeError>(
            Datum::boolean(false),
        ),
        binary_op_spec(BinaryOperator::And, Datum::boolean(false), a) == Ok::<Datum, TypeError>(
            Datum::boolean(false),
        ),
        binary_op_spec(BinaryOperator::Or, a, Datum::boolean(true)) == Ok::<Datum, TypeError>(
            Datum::boolean(true),
        ),
        binary_op_spec(BinaryOperator::Or, Datum::boolean(true), a) == Ok::<Datum, TypeError>(
            Datum::boolean(true),
        ),
        binary_op_spec(BinaryOperator::And, a, Datum::boolean(true)) == Ok::<Datum, TypeError>(
            Datum::null(LogicalType::Boolean),
        ),
        binary_op_spec(BinaryOperator::Or, a, Datum::boolean(false)) == Ok::<Datum, TypeError>(
            Datum::null(LogicalType::Boolean),
        ),
{
}

} // verus!
