//! Logical types, runtime values and the casts between them.
//!
//! A runtime value is modelled as a [`Datum`]: a type tag with an optional
//! payload, where an absent payload is SQL `NULL`. All contracts in this crate
//! speak about values through that model.

use std::sync::Arc;
use vstd::prelude::*;

verus! {

/// Number of fractional decimal digits of a `Decimal` value.
pub const DECIMAL_SCALE: u32 = 4;

/// `10^DECIMAL_SCALE`: how many `Decimal` units make up the number one.
pub const DECIMAL_UNIT: i64 = 10000;

/// Failures of type coercion and of operators applied to values.
#[derive(Clone, Copy, Debug, PartialEq, Eq, Structural)]
pub enum TypeError {
    /// Two types have no common type to coerce to.
    TypeMismatch,
    /// A value cannot be represented in the type it is cast to.
    CastFail,
    /// An operator is applied to operands of a type it is not defined on.
    InvalidType,
    /// The exact result of an arithmetic operator lies outside its result type.
    Overflow,
    /// Division or remainder by zero.
    DivisionByZero,
}

/// The SQL types known to the engine.
#[derive(Clone, Copy, Debug, PartialEq, Eq, Hash, Structural)]
pub enum LogicalType {
    /// The type of the untyped `NULL` literal.
    SqlNull,
    Boolean,
    /// 8-bit signed integer.
    Tinyint,
    /// 16-bit signed integer.
    Smallint,
    /// 32-bit signed integer.
    Integer,
    /// 64-bit signed integer.
    Bigint,
    /// Fixed-point number with `DECIMAL_SCALE` fractional digits.
    Decimal,
    /// Character string.
    Varchar,
    /// Calendar date, counted in days.
    Date,
}

impl LogicalType {
    /// The signed integer types.
    pub open spec fn is_integer(self) -> bool {
        self == LogicalType::Tinyint || self == LogicalType::Smallint || self
            == LogicalType::Integer || self == LogicalType::Bigint
    }

    /// The types arithmetic is defined on.
    pub open spec fn is_numeric(self) -> bool {
        self.is_integer() || self == LogicalType::Decimal
    }

    /// The types whose payload is an integer.
    pub open spec fn holds_int(self) -> bool {
        self.is_numeric() || self == LogicalType::Date
    }

    /// Smallest integer payload of a type that holds integers.
    pub open spec fn min_int(self) -> int {
        match self {
            LogicalType::Tinyint => i8::MIN as int,
            LogicalType::Smallint => i16::MIN as int,
            LogicalType::Integer => i32::MIN as int,
            LogicalType::Date => i32::MIN as int,
            _ => i64::MIN as int,
        }
    }

    /// Largest integer payload of a type that holds integers.
    pub open spec fn max_int(self) -> int {
        match self {
            LogicalType::Tinyint => i8::MAX as int,
            LogicalType::Smallint => i16::MAX as int,
            LogicalType::Integer => i32::MAX as int,
            LogicalType::Date => i32::MAX as int,
            _ => i64::MAX as int,
        }
    }

    /// Whether `n` is a payload of this type.
    pub open spec fn fits(self, n: int) -> bool {
        self.holds_int() && self.min_int() <= n <= self.max_int()
    }

    /// Position of a numeric type in the promotion order
    /// `Tinyint < Smallint < Integer < Bigint < Decimal`.
    pub open spec fn rank(self) -> int {
        match self {
            LogicalType::Tinyint => 1,
            LogicalType::Smallint => 2,
            LogicalType::Integer => 3,
            LogicalType::Bigint => 4,
            LogicalType::Decimal => 5,
            _ => 0,
        }
    }

    /// Whether every value of `self` can be cast to `to` unless it is out of
    /// range: the type is unchanged, the source is the `NULL` type, or the
    /// cast goes from an integer type to a numeric type.
    pub open spec fn castable_to(self, to: LogicalType) -> bool {
        self == to || self == LogicalType::SqlNull || (self.is_integer() && to.is_numeric())
    }

    /// Whether a cast from `self` to `to` never fails and never loses
    /// information.
    pub open spec fn widens_to(self, to: LogicalType) -> bool {
        self == to || self == LogicalType::SqlNull || (self.is_integer() && to.is_integer()
            && self.rank() <= to.rank())
    }

    /// The least upper bound of two types under promotion: equal types are
    /// their own bound, the `NULL` type yields to the other type, and two
    /// numeric types are bounded by the one of higher rank.
    pub open spec fn lub(self, other: LogicalType) -> Result<LogicalType, TypeError> {
        if self == other {
            Ok(self)
        } else if self == LogicalType::SqlNull {
            Ok(other)
        } else if other == LogicalType::SqlNull {
            Ok(self)
        } else if self.is_numeric() && other.is_numeric() {
            if self.rank() >= other.rank() {
                Ok(self)
            } else {
                Ok(other)
            }
        } else {
            Err(TypeError::TypeMismatch)
        }
    }

    /// Executable form of [`Self::is_integer`].
    pub fn integer(&self) -> (r: bool)
        ensures
            r == self.is_integer(),
    {
        match self {
            LogicalType::Tinyint | LogicalType::Smallint | LogicalType::Integer
            | LogicalType::Bigint => true,
            _ => false,
        }
    }

    /// Executable form of [`Self::is_numeric`].
    pub fn numeric(&self) -> (r: bool)
        ensures
            r == self.is_numeric(),
    {
        match self {
            LogicalType::Tinyint | LogicalType::Smallint | LogicalType::Integer
            | LogicalType::Bigint | LogicalType::Decimal => true,
            _ => false,
        }
    }

    fn numeric_rank(&self) -> (r: u8)
        ensures
            r == self.rank(),
    {
        match self {
            LogicalType::Tinyint => 1,
            LogicalType::Smallint => 2,
            LogicalType::Integer => 3,
            LogicalType::Bigint => 4,
            LogicalType::Decimal => 5,
            _ => 0,
        }
    }

    /// The common type two operands are promoted to, or `TypeMismatch` when
    /// there is none.
    pub fn max_logical_type(left: &LogicalType, right: &LogicalType) -> (r: Result<
        LogicalType,
        TypeError,
    >)
        ensures
            r == left.lub(*right),
    {
        if *left == *right {
            Ok(*left)
        } else if *left == LogicalType::SqlNull {
            Ok(*right)
        } else if *right == LogicalType::SqlNull {
            Ok(*left)
        } else if left.numeric() && right.numeric() {
            if left.numeric_rank() >= right.numeric_rank() {
                Ok(*left)
            } else {
                Ok(*right)
            }
        } else {
            Err(TypeError::TypeMismatch)
        }
    }
}

/// What a non-null value carries.
pub enum Payload {
    Bool(bool),
    /// An integer, a count of `Decimal` units, or a count of days.
    Int(int),
    Text(Seq<char>),
}

/// The mathematical model of a runtime value.
pub struct Datum {
    pub ty: LogicalType,
    /// `None` is SQL `NULL`.
    pub payload: Option<Payload>,
}

impl Datum {
    /// The `NULL` of a type.
    pub open spec fn null(ty: LogicalType) -> Datum {
        Datum { ty, payload: None }
    }

    /// A non-null value with an integer payload.
    pub open spec fn of_int(ty: LogicalType, n: int) -> Datum {
        Datum { ty, payload: Some(Payload::Int(n)) }
    }

    /// A non-null Boolean.
    pub open spec fn boolean(b: bool) -> Datum {
        Datum { ty: LogicalType::Boolean, payload: Some(Payload::Bool(b)) }
    }

    /// A non-null character string.
    pub open spec fn text(s: Seq<char>) -> Datum {
        Datum { ty: LogicalType::Varchar, payload: Some(Payload::Text(s)) }
    }

    /// Whether the value is SQL `NULL`.
    pub open spec fn is_null(self) -> bool {
        self.payload is None
    }

    /// The payload agrees with the type tag.
    pub open spec fn wf(self) -> bool {
        match self.payload {
            None => true,
            Some(Payload::Bool(_)) => self.ty == LogicalType::Boolean,
            Some(Payload::Int(n)) => self.ty.fits(n),
            Some(Payload::Text(_)) => self.ty == LogicalType::Varchar,
        }
    }

    /// The value converted to type `to`.
    ///
    /// A value of type `to` is unchanged and `NULL` becomes the `NULL` of
    /// `to`. An integer becomes an integer of another width if it is in range,
    /// and a `Decimal` if its multiple of `DECIMAL_UNIT` is. Every other cast
    /// fails with `CastFail`.
    pub open spec fn cast(self, to: LogicalType) -> Result<Datum, TypeError> {
        if self.ty == to {
            Ok(self)
        } else if self.payload is None {
            Ok(Datum::null(to))
        } else if self.ty.is_integer() && to.is_integer() {
            match self.payload {
                Some(Payload::Int(n)) if to.fits(n) => Ok(Datum::of_int(to, n)),
                _ => Err(TypeError::CastFail),
            }
        } else if self.ty.is_integer() && to == LogicalType::Decimal {
            match self.payload {
                Some(Payload::Int(n)) if to.fits(n * DECIMAL_UNIT) => Ok(
                    Datum::of_int(to, n * DECIMAL_UNIT),
                ),
                _ => Err(TypeError::CastFail),
            }
        } else {
            Err(TypeError::CastFail)
        }
    }
}

/// A runtime value: one variant per logical type, each with an optional
/// payload whose absence is SQL `NULL`.
#[derive(Clone, Debug, PartialEq, Eq, Hash)]
pub enum DataValue {
    /// The untyped `NULL`.
    Null,
    Boolean(Option<bool>),
    Int8(Option<i8>),
    Int16(Option<i16>),
    Int32(Option<i32>),
    Int64(Option<i64>),
    /// A count of `1 / DECIMAL_UNIT` units.
    Decimal(Option<i64>),
    Utf8(Option<String>),
    /// Days since the epoch.
    Date32(Option<i32>),
}

/// A shared, immutable runtime value.
pub type ValueRef = Arc<DataValue>;

impl View for DataValue {
    type V = Datum;

    open spec fn view(&self) -> Datum {
        match self {
            DataValue::Null => Datum::null(LogicalType::SqlNull),
            DataValue::Boolean(None) => Datum::null(LogicalType::Boolean),
            DataValue::Boolean(Some(b)) => Datum::boolean(*b),
            DataValue::Int8(None) => Datum::null(LogicalType::Tinyint),
            DataValue::Int8(Some(n)) => Datum::of_int(LogicalType::Tinyint, *n as int),
            DataValue::Int16(None) => Datum::null(LogicalType::Smallint),
            DataValue::Int16(Some(n)) => Datum::of_int(LogicalType::Smallint, *n as int),
            DataValue::Int32(None) => Datum::null(LogicalType::Integer),
            DataValue::Int32(Some(n)) => Datum::of_int(LogicalType::Integer, *n as int),
            DataValue::Int64(None) => Datum::null(LogicalType::Bigint),
            DataValue::Int64(Some(n)) => Datum::of_int(LogicalType::Bigint, *n as int),
            DataValue::Decimal(None) => Datum::null(LogicalType::Decimal),
            DataValue::Decimal(Some(n)) => Datum::of_int(LogicalType::Decimal, *n as int),
            DataValue::Utf8(None) => Datum::null(LogicalType::Varchar),
            DataValue::Utf8(Some(s)) => Datum::text(s@),
            DataValue::Date32(None) => Datum::null(LogicalType::Date),
            DataValue::Date32(Some(n)) => Datum::of_int(LogicalType::Date, *n as int),
        }
    }
}

/// The model of the outcome of an operation that yields a value.
pub open spec fn value_result(r: Result<DataValue, TypeError>) -> Result<Datum, TypeError> {
    match r {
        Ok(v) => Ok(v@),
        Err(e) => Err(e),
    }
}

/// `Arc::clone` of the standard library: the new handle points to the same
/// allocation, so it denotes the same value.
#[verifier::external_body]
pub(crate) fn share<T>(a: &Arc<T>) -> (res: Arc<T>)
    ensures
        res == *a,
{
    Arc::clone(a)
}

impl DataValue {
    /// Every runtime value has a well-formed model.
    pub proof fn lemma_view_wf(&self)
        ensures
            self@.wf(),
    {
    }

    /// The type of the value.
    pub fn logical_type(&self) -> (r: LogicalType)
        ensures
            r == self@.ty,
    {
        match self {
            DataValue::Null => LogicalType::SqlNull,
            DataValue::Boolean(_) => LogicalType::Boolean,
            DataValue::Int8(_) => LogicalType::Tinyint,
            DataValue::Int16(_) => LogicalType::Smallint,
            DataValue::Int32(_) => LogicalType::Integer,
            DataValue::Int64(_) => LogicalType::Bigint,
            DataValue::Decimal(_) => LogicalType::Decimal,
            DataValue::Utf8(_) => LogicalType::Varchar,
            DataValue::Date32(_) => LogicalType::Date,
        }
    }

    /// Whether the value is SQL `NULL`.
    pub fn is_null(&self) -> (r: bool)
        ensures
            r == self@.is_null(),
    {
        match self {
            DataValue::Null => true,
            DataValue::Boolean(v) => v.is_none(),
            DataValue::Int8(v) => v.is_none(),
            DataValue::Int16(v) => v.is_none(),
            DataValue::Int32(v) => v.is_none(),
            DataValue::Int64(v) => v.is_none(),
            DataValue::Decimal(v) => v.is_none(),
            DataValue::Utf8(v) => v.is_none(),
            DataValue::Date32(v) => v.is_none(),
        }
    }

    /// The `NULL` of a type.
    pub fn none(ty: &LogicalType) -> (r: DataValue)
        ensures
            r@ == Datum::null(*ty),
    {
        match ty {
            LogicalType::SqlNull => DataValue::Null,
            LogicalType::Boolean => DataValue::Boolean(None),
            LogicalType::Tinyint => DataValue::Int8(None),
            LogicalType::Smallint => DataValue::Int16(None),
            LogicalType::Integer => DataValue::Int32(None),
            LogicalType::Bigint => DataValue::Int64(None),
            LogicalType::Decimal => DataValue::Decimal(None),
            LogicalType::Varchar => DataValue::Utf8(None),
            LogicalType::Date => DataValue::Date32(None),
        }
    }

    /// The integer payload, if the value has one.
    pub fn int_payload(&self) -> (r: Option<i64>)
        ensures
            match r {
                Some(n) => self@.payload == Some(Payload::Int(n as int)),
                None => !(self@.payload matches Some(Payload::Int(_))),
            },
    {
        match self {
            DataValue::Int8(Some(n)) => Some(*n as i64),
            DataValue::Int16(Some(n)) => Some(*n as i64),
            DataValue::Int32(Some(n)) => Some(*n as i64),
            DataValue::Int64(Some(n)) => Some(*n),
            DataValue::Decimal(Some(n)) => Some(*n),
            DataValue::Date32(Some(n)) => Some(*n as i64),
            _ => None,
        }
    }

    /// The non-null value of type `ty` with integer payload `n`, or `None`
    /// when `ty` has no such value.
    pub fn from_int(ty: &LogicalType, n: i128) -> (r: Option<DataValue>)
        ensures
            match r {
                Some(v) => ty.fits(n as int) && v@ == Datum::of_int(*ty, n as int),
                None => !ty.fits(n as int),
            },
    {
        match ty {
            LogicalType::Tinyint => if -128 <= n && n <= 127 {
                Some(DataValue::Int8(Some(n as i8)))
            } else {
                None
            },
            LogicalType::Smallint => if -32768 <= n && n <= 32767 {
                Some(DataValue::Int16(Some(n as i16)))
            } else {
                None
            },
            LogicalType::Integer => if -2147483648 <= n && n <= 2147483647 {
                Some(DataValue::Int32(Some(n as i32)))
            } else {
                None
            },
            LogicalType::Bigint => if -9223372036854775808 <= n && n <= 9223372036854775807 {
                Some(DataValue::Int64(Some(n as i64)))
            } else {
                None
            },
            LogicalType::Decimal => if -9223372036854775808 <= n && n <= 9223372036854775807 {
                Some(DataValue::Decimal(Some(n as i64)))
            } else {
                None
            },
            LogicalType::Date => if -2147483648 <= n && n <= 2147483647 {
                Some(DataValue::Date32(Some(n as i32)))
            } else {
                None
            },
            _ => None,
        }
    }

    /// A copy of the value.
    pub fn duplicate(&self) -> (r: DataValue)
        ensures
            r@ == self@,
    {
        match self {
            DataValue::Null => DataValue::Null,
            DataValue::Boolean(v) => DataValue::Boolean(*v),
            DataValue::Int8(v) => DataValue::Int8(*v),
            DataValue::Int16(v) => DataValue::Int16(*v),
            DataValue::Int32(v) => DataValue::Int32(*v),
            DataValue::Int64(v) => DataValue::Int64(*v),
            DataValue::Decimal(v) => DataValue::Decimal(*v),
            DataValue::Utf8(None) => DataValue::Utf8(None),
            DataValue::Utf8(Some(s)) => DataValue::Utf8(Some(s.clone())),
            DataValue::Date32(v) => DataValue::Date32(*v),
        }
    }

    /// The value converted to type `to`; see [`Datum::cast`].
    pub fn cast(&self, to: &LogicalType) -> (r: Result<DataValue, TypeError>)
        ensures
            value_result(r) == self@.cast(*to),
    {
        let from = self.logical_type();
        if from == *to {
            Ok(self.duplicate())
        } else if self.is_null() {
            Ok(DataValue::none(to))
        } else if from.integer() && to.numeric() {
            match self.int_payload() {
                Some(n) => {
                    let wide: i128 = if to.integer() {
                        n as i128
                    } else {
                        n as i128 * (DECIMAL_UNIT as i128)
                    };
                    match DataValue::from_int(to, wide) {
                        Some(v) => Ok(v),
                        None => Err(TypeError::CastFail),
                    }
                },
                None => Err(TypeError::CastFail),
            }
        } else {
            Err(TypeError::CastFail)
        }
    }

    /// Whether two values are the same value: same type, and both `NULL` or
    /// the same payload.
    pub fn same(&self, other: &DataValue) -> (r: bool)
        ensures
            r == (self@ == other@),
    {
        match (self, other) {
            (DataValue::Null, DataValue::Null) => true,
            (DataValue::Boolean(a), DataValue::Boolean(b)) => match (a, b) {
                (None, None) => true,
                (Some(x), Some(y)) => *x == *y,
                _ => false,
            },
            (DataValue::Int8(a), DataValue::Int8(b)) => match (a, b) {
                (None, None) => true,
                (Some(x), Some(y)) => *x == *y,
                _ => false,
            },
            (DataValue::Int16(a), DataValue::Int16(b)) => match (a, b) {
                (None, None) => true,
                (Some(x), Some(y)) => *x == *y,
                _ => false,
            },
            (DataValue::Int32(a), DataValue::Int32(b)) => match (a, b) {
                (None, None) => true,
                (Some(x), Some(y)) => *x == *y,
                _ => false,
            },
            (DataValue::Int64(a), DataValue::Int64(b)) => match (a, b) {
                (None, None) => true,
                (Some(x), Some(y)) => *x == *y,
                _ => false,
            },
            (DataValue::Decimal(a), DataValue::Decimal(b)) => match (a, b) {
                (None, None) => true,
                (Some(x), Some(y)) => *x == *y,
                _ => false,
            },
            (DataValue::Utf8(a), DataValue::Utf8(b)) => match (a, b) {
                (None, None) => true,
                (Some(x), Some(y)) => *x == *y,
                _ => false,
            },
            (DataValue::Date32(a), DataValue::Date32(b)) => match (a, b) {
                (None, None) => true,
                (Some(x), Some(y)) => *x == *y,
                _ => false,
            },
            _ => false,
        }
    }
}

/// Promotion is commutative.
pub proof fn lemma_lub_commutative(a: LogicalType, b: LogicalType)
    ensures
        a.lub(b) == b.lub(a),
{
}

/// The common type of two types is an upper bound of both: each of them can
/// be cast to it.
pub proof fn lemma_lub_upper_bound(a: LogicalType, b: LogicalType)
    requires
        a.lub(b) is Ok,
    ensures
        a.castable_to(a.lub(b)->Ok_0),
        b.castable_to(a.lub(b)->Ok_0),
{
}

/// A cast that succeeds yields a well-formed value of the target type, and
/// keeps `NULL` exactly when the source is `NULL`.
pub proof fn lemma_cast_result(d: Datum, to: LogicalType)
    requires
        d.wf(),
        d.cast(to) is Ok,
    ensures
        d.cast(to)->Ok_0.wf(),
        d.cast(to)->Ok_0.ty == to,
        d.cast(to)->Ok_0.is_null() == d.is_null(),
{
}

/// A cast along a widening never fails.
pub proof fn lemma_widening_cast_succeeds(d: Datum, to: LogicalType)
    requires
        d.wf(),
        d.ty.widens_to(to),
    ensures
        d.cast(to) is Ok,
{
}

} // verus!
