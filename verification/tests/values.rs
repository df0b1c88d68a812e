use kip_sql::types::LogicalType::{
    Bigint, Boolean, Date, Decimal, Integer, Smallint, SqlNull, Tinyint, Varchar,
};
use kip_sql::types::{DataValue, LogicalType, TypeError, DECIMAL_SCALE, DECIMAL_UNIT};
use kip_sql::value_compute::{binary_op, unary_op, BinaryOperator, UnaryOperator};

fn int32(v: i32) -> DataValue {
    DataValue::Int32(Some(v))
}

fn text(v: &str) -> DataValue {
    DataValue::Utf8(Some(v.to_string()))
}

fn boolean(v: bool) -> DataValue {
    DataValue::Boolean(Some(v))
}

#[test]
fn decimal_unit_is_ten_to_the_scale() {
    assert_eq!(DECIMAL_UNIT, 10i64.pow(DECIMAL_SCALE));
}

#[test]
fn logical_type_of_every_variant() {
    assert_eq!(DataValue::Null.logical_type(), LogicalType::SqlNull);
    assert_eq!(boolean(true).logical_type(), LogicalType::Boolean);
    assert_eq!(DataValue::Int8(None).logical_type(), LogicalType::Tinyint);
    assert_eq!(DataValue::Int16(Some(1)).logical_type(), LogicalType::Smallint);
    assert_eq!(int32(1).logical_type(), LogicalType::Integer);
    assert_eq!(DataValue::Int64(Some(1)).logical_type(), LogicalType::Bigint);
    assert_eq!(DataValue::Decimal(Some(1)).logical_type(), LogicalType::Decimal);
    assert_eq!(text("a").logical_type(), LogicalType::Varchar);
    assert_eq!(DataValue::Date32(Some(1)).logical_type(), LogicalType::Date);
}

#[test]
fn none_is_null_of_its_type() {
    let types = [
        LogicalType::SqlNull,
        LogicalType::Boolean,
        LogicalType::Tinyint,
        LogicalType::Smallint,
        LogicalType::Integer,
        LogicalType::Bigint,
        LogicalType::Decimal,
        LogicalType::Varchar,
        LogicalType::Date,
    ];
    for ty in types.iter() {
        let v = DataValue::none(ty);
        assert!(v.is_null());
        assert_eq!(v.logical_type(), *ty);
    }
    assert!(!int32(0).is_null());
    assert!(!text("").is_null());
}

#[test]
fn same_compares_type_and_payload() {
    assert!(int32(1).same(&int32(1)));
    assert!(!int32(1).same(&int32(2)));
    assert!(!int32(1).same(&DataValue::Int64(Some(1))));
    assert!(DataValue::Int32(None).same(&DataValue::Int32(None)));
    assert!(!DataValue::Int32(None).same(&DataValue::Null));
    assert!(text("ab").same(&text("ab")));
    assert!(!text("ab").same(&text("ac")));
    assert!(int32(7).duplicate().same(&int32(7)));
    assert!(text("x").duplicate().same(&text("x")));
}

#[test]
fn max_logical_type_promotes() {
    assert_eq!(LogicalType::max_logical_type(&Integer, &Integer), Ok(Integer));
    assert_eq!(LogicalType::max_logical_type(&Integer, &Bigint), Ok(Bigint));
    assert_eq!(LogicalType::max_logical_type(&Bigint, &Tinyint), Ok(Bigint));
    assert_eq!(LogicalType::max_logical_type(&Integer, &Decimal), Ok(Decimal));
    assert_eq!(LogicalType::max_logical_type(&Decimal, &Smallint), Ok(Decimal));
    assert_eq!(LogicalType::max_logical_type(&SqlNull, &Date), Ok(Date));
    assert_eq!(LogicalType::max_logical_type(&Varchar, &SqlNull), Ok(Varchar));
    assert_eq!(LogicalType::max_logical_type(&Boolean, &Integer), Err(TypeError::TypeMismatch));
    assert_eq!(LogicalType::max_logical_type(&Varchar, &Integer), Err(TypeError::TypeMismatch));
    assert_eq!(LogicalType::max_logical_type(&Date, &Decimal), Err(TypeError::TypeMismatch));
}

#[test]
fn max_logical_type_is_commutative() {
    let types = [SqlNull, Boolean, Tinyint, Smallint, Integer, Bigint, Decimal, Varchar, Date];
    for a in types.iter() {
        for b in types.iter() {
            assert_eq!(
                LogicalType::max_logical_type(a, b),
                LogicalType::max_logical_type(b, a)
            );
        }
    }
}

#[test]
fn cast_between_integer_widths() {
    assert_eq!(int32(5).cast(&LogicalType::Bigint), Ok(DataValue::Int64(Some(5))));
    assert_eq!(int32(5).cast(&LogicalType::Tinyint), Ok(DataValue::Int8(Some(5))));
    assert_eq!(int32(-128).cast(&LogicalType::Tinyint), Ok(DataValue::Int8(Some(-128))));
    assert_eq!(int32(128).cast(&LogicalType::Tinyint), Err(TypeError::CastFail));
    assert_eq!(int32(-129).cast(&LogicalType::Tinyint), Err(TypeError::CastFail));
    assert_eq!(int32(40000).cast(&LogicalType::Smallint), Err(TypeError::CastFail));
    assert_eq!(
        DataValue::Int64(Some(i64::MAX)).cast(&LogicalType::Integer),
        Err(TypeError::CastFail)
    );
    assert_eq!(
        DataValue::Int64(Some(2147483647)).cast(&LogicalType::Integer),
        Ok(int32(2147483647))
    );
}

#[test]
fn cast_integer_to_decimal_scales() {
    assert_eq!(int32(1).cast(&LogicalType::Decimal), Ok(DataValue::Decimal(Some(10000))));
    assert_eq!(int32(-3).cast(&LogicalType::Decimal), Ok(DataValue::Decimal(Some(-30000))));
    assert_eq!(
        DataValue::Int64(Some(i64::MAX)).cast(&LogicalType::Decimal),
        Err(TypeError::CastFail)
    );
    assert_eq!(
        DataValue::Int64(Some(922337203685477)).cast(&LogicalType::Decimal),
        Ok(DataValue::Decimal(Some(9223372036854770000)))
    );
    assert_eq!(
        DataValue::Int64(Some(922337203685478)).cast(&LogicalType::Decimal),
        Err(TypeError::CastFail)
    );
}

#[test]
fn cast_keeps_null_and_same_type() {
    assert_eq!(DataValue::Null.cast(&LogicalType::Integer), Ok(DataValue::Int32(None)));
    assert_eq!(DataValue::Int32(None).cast(&LogicalType::Varchar), Ok(DataValue::Utf8(None)));
    assert_eq!(DataValue::Utf8(None).cast(&LogicalType::SqlNull), Ok(DataValue::Null));
    assert_eq!(text("a").cast(&LogicalType::Varchar), Ok(text("a")));
    assert_eq!(DataValue::Date32(Some(3)).cast(&LogicalType::Date), Ok(DataValue::Date32(Some(3))));
}

#[test]
fn cast_refuses_other_pairs() {
    assert_eq!(boolean(true).cast(&LogicalType::Integer), Err(TypeError::CastFail));
    assert_eq!(int32(1).cast(&LogicalType::Boolean), Err(TypeError::CastFail));
    assert_eq!(int32(1).cast(&LogicalType::Varchar), Err(TypeError::CastFail));
    assert_eq!(text("1").cast(&LogicalType::Integer), Err(TypeError::CastFail));
    assert_eq!(DataValue::Decimal(Some(10000)).cast(&LogicalType::Integer), Err(TypeError::CastFail));
    assert_eq!(int32(1).cast(&LogicalType::Date), Err(TypeError::CastFail));
    assert_eq!(int32(1).cast(&LogicalType::SqlNull), Err(TypeError::CastFail));
}

#[test]
fn integer_arithmetic_is_exact() {
    assert_eq!(binary_op(&BinaryOperator::Plus, &int32(1), &int32(2)), Ok(int32(3)));
    assert_eq!(binary_op(&BinaryOperator::Minus, &int32(1), &int32(2)), Ok(int32(-1)));
    assert_eq!(binary_op(&BinaryOperator::Multiply, &int32(6), &int32(-7)), Ok(int32(-42)));
    assert_eq!(binary_op(&BinaryOperator::Divide, &int32(7), &int32(2)), Ok(int32(3)));
    assert_eq!(binary_op(&BinaryOperator::Divide, &int32(-7), &int32(2)), Ok(int32(-3)));
    assert_eq!(binary_op(&BinaryOperator::Divide, &int32(7), &int32(-2)), Ok(int32(-3)));
    assert_eq!(binary_op(&BinaryOperator::Divide, &int32(-7), &int32(-2)), Ok(int32(3)));
    assert_eq!(binary_op(&BinaryOperator::Modulo, &int32(7), &int32(2)), Ok(int32(1)));
    assert_eq!(binary_op(&BinaryOperator::Modulo, &int32(-7), &int32(2)), Ok(int32(-1)));
    assert_eq!(binary_op(&BinaryOperator::Modulo, &int32(7), &int32(-2)), Ok(int32(1)));
}

#[test]
fn arithmetic_promotes_to_the_wider_type() {
    assert_eq!(
        binary_op(&BinaryOperator::Plus, &DataValue::Int8(Some(100)), &int32(100)),
        Ok(int32(200))
    );
    assert_eq!(
        binary_op(&BinaryOperator::Plus, &int32(i32::MAX), &DataValue::Int64(Some(1))),
        Ok(DataValue::Int64(Some(2147483648)))
    );
}

#[test]
fn arithmetic_reports_overflow_and_division_by_zero() {
    assert_eq!(binary_op(&BinaryOperator::Plus, &int32(i32::MAX), &int32(1)), Err(TypeError::Overflow));
    assert_eq!(binary_op(&BinaryOperator::Minus, &int32(i32::MIN), &int32(1)), Err(TypeError::Overflow));
    assert_eq!(
        binary_op(&BinaryOperator::Multiply, &int32(65536), &int32(65536)),
        Err(TypeError::Overflow)
    );
    assert_eq!(binary_op(&BinaryOperator::Divide, &int32(i32::MIN), &int32(-1)), Err(TypeError::Overflow));
    assert_eq!(
        binary_op(
            &BinaryOperator::Multiply,
            &DataValue::Int64(Some(i64::MIN)),
            &DataValue::Int64(Some(i64::MIN))
        ),
        Err(TypeError::Overflow)
    );
    assert_eq!(binary_op(&BinaryOperator::Divide, &int32(1), &int32(0)), Err(TypeError::DivisionByZero));
    assert_eq!(binary_op(&BinaryOperator::Modulo, &int32(1), &int32(0)), Err(TypeError::DivisionByZero));
}

#[test]
fn decimal_arithmetic_is_fixed_point() {
    let one = int32(1);
    let two_and_a_half = DataValue::Decimal(Some(25000));
    let one_and_a_half = DataValue::Decimal(Some(15000));
    let three = DataValue::Decimal(Some(30000));
    assert_eq!(
        binary_op(&BinaryOperator::Plus, &one, &two_and_a_half),
        Ok(DataValue::Decimal(Some(35000)))
    );
    assert_eq!(
        binary_op(&BinaryOperator::Minus, &one, &two_and_a_half),
        Ok(DataValue::Decimal(Some(-15000)))
    );
    assert_eq!(
        binary_op(&BinaryOperator::Multiply, &one_and_a_half, &two_and_a_half),
        Ok(DataValue::Decimal(Some(37500)))
    );
    assert_eq!(
        binary_op(&BinaryOperator::Divide, &one, &three),
        Ok(DataValue::Decimal(Some(3333)))
    );
    assert_eq!(
        binary_op(&BinaryOperator::Divide, &DataValue::Decimal(Some(-10000)), &three),
        Ok(DataValue::Decimal(Some(-3333)))
    );
    assert_eq!(
        binary_op(&BinaryOperator::Modulo, &two_and_a_half, &one),
        Ok(DataValue::Decimal(Some(5000)))
    );
    assert_eq!(
        binary_op(&BinaryOperator::Divide, &two_and_a_half, &DataValue::Decimal(Some(0))),
        Err(TypeError::DivisionByZero)
    );
    assert_eq!(
        binary_op(
            &BinaryOperator::Multiply,
            &DataValue::Decimal(Some(i64::MAX)),
            &DataValue::Decimal(Some(i64::MAX))
        ),
        Err(TypeError::Overflow)
    );
}

#[test]
fn arithmetic_with_null_is_null() {
    assert_eq!(
        binary_op(&BinaryOperator::Plus, &DataValue::Int32(None), &int32(1)),
        Ok(DataValue::Int32(None))
    );
    assert_eq!(
        binary_op(&BinaryOperator::Multiply, &int32(1), &DataValue::Null),
        Ok(DataValue::Int32(None))
    );
    assert_eq!(
        binary_op(&BinaryOperator::Plus, &DataValue::Null, &DataValue::Null),
        Ok(DataValue::Null)
    );
    assert_eq!(
        binary_op(&BinaryOperator::Divide, &DataValue::Int64(None), &int32(0)),
        Ok(DataValue::Int64(None))
    );
}

#[test]
fn arithmetic_refuses_other_types() {
    assert_eq!(
        binary_op(&BinaryOperator::Plus, &boolean(true), &int32(1)),
        Err(TypeError::TypeMismatch)
    );
    assert_eq!(binary_op(&BinaryOperator::Plus, &text("a"), &text("b")), Err(TypeError::InvalidType));
    assert_eq!(
        binary_op(&BinaryOperator::Minus, &boolean(true), &boolean(false)),
        Err(TypeError::InvalidType)
    );
    assert_eq!(
        binary_op(&BinaryOperator::Plus, &DataValue::Date32(Some(1)), &DataValue::Date32(Some(1))),
        Err(TypeError::InvalidType)
    );
}

#[test]
fn comparison_of_numbers() {
    assert_eq!(binary_op(&BinaryOperator::Lt, &int32(1), &int32(2)), Ok(boolean(true)));
    assert_eq!(binary_op(&BinaryOperator::Lt, &int32(2), &int32(2)), Ok(boolean(false)));
    assert_eq!(binary_op(&BinaryOperator::LtEq, &int32(2), &int32(2)), Ok(boolean(true)));
    assert_eq!(binary_op(&BinaryOperator::Gt, &int32(3), &int32(2)), Ok(boolean(true)));
    assert_eq!(binary_op(&BinaryOperator::GtEq, &int32(1), &int32(2)), Ok(boolean(false)));
    assert_eq!(binary_op(&BinaryOperator::Eq, &int32(2), &DataValue::Int64(Some(2))), Ok(boolean(true)));
    assert_eq!(binary_op(&BinaryOperator::NotEq, &int32(2), &int32(3)), Ok(boolean(true)));
    assert_eq!(
        binary_op(&BinaryOperator::Gt, &DataValue::Decimal(Some(25000)), &int32(2)),
        Ok(boolean(true))
    );
    assert_eq!(
        binary_op(&BinaryOperator::Lt, &DataValue::Date32(Some(1)), &DataValue::Date32(Some(2))),
        Ok(boolean(true))
    );
}

#[test]
fn comparison_of_texts_and_booleans() {
    assert_eq!(binary_op(&BinaryOperator::Lt, &text("a"), &text("b")), Ok(boolean(true)));
    assert_eq!(binary_op(&BinaryOperator::Lt, &text("abc"), &text("abd")), Ok(boolean(true)));
    assert_eq!(binary_op(&BinaryOperator::Lt, &text("ab"), &text("abc")), Ok(boolean(true)));
    assert_eq!(binary_op(&BinaryOperator::Lt, &text("abc"), &text("ab")), Ok(boolean(false)));
    assert_eq!(binary_op(&BinaryOperator::Lt, &text(""), &text("")), Ok(boolean(false)));
    assert_eq!(binary_op(&BinaryOperator::Gt, &text("b"), &text("a")), Ok(boolean(true)));
    assert_eq!(binary_op(&BinaryOperator::Eq, &text("xy"), &text("xy")), Ok(boolean(true)));
    assert_eq!(binary_op(&BinaryOperator::NotEq, &text("xy"), &text("xz")), Ok(boolean(true)));
    assert_eq!(binary_op(&BinaryOperator::Lt, &text("Z"), &text("a")), Ok(boolean(true)));
    assert_eq!(binary_op(&BinaryOperator::Lt, &boolean(false), &boolean(true)), Ok(boolean(true)));
    assert_eq!(binary_op(&BinaryOperator::Eq, &boolean(true), &boolean(true)), Ok(boolean(true)));
}

#[test]
fn comparison_with_null_is_null() {
    assert_eq!(
        binary_op(&BinaryOperator::Eq, &DataValue::Int32(None), &DataValue::Int32(None)),
        Ok(DataValue::Boolean(None))
    );
    assert_eq!(
        binary_op(&BinaryOperator::Eq, &DataValue::Null, &DataValue::Null),
        Ok(DataValue::Boolean(None))
    );
    assert_eq!(binary_op(&BinaryOperator::Lt, &int32(1), &DataValue::Null), Ok(DataValue::Boolean(None)));
    assert_eq!(
        binary_op(&BinaryOperator::NotEq, &DataValue::Utf8(None), &text("a")),
        Ok(DataValue::Boolean(None))
    );
    assert_eq!(binary_op(&BinaryOperator::Eq, &text("a"), &int32(1)), Err(TypeError::TypeMismatch));
}

#[test]
fn logic_is_three_valued() {
    let t = boolean(true);
    let f = boolean(false);
    let n = DataValue::Boolean(None);
    let u = DataValue::Null;
    assert_eq!(binary_op(&BinaryOperator::And, &t, &t), Ok(boolean(true)));
    assert_eq!(binary_op(&BinaryOperator::And, &t, &f), Ok(boolean(false)));
    assert_eq!(binary_op(&BinaryOperator::And, &n, &f), Ok(boolean(false)));
    assert_eq!(binary_op(&BinaryOperator::And, &f, &n), Ok(boolean(false)));
    assert_eq!(binary_op(&BinaryOperator::And, &u, &f), Ok(boolean(false)));
    assert_eq!(binary_op(&BinaryOperator::And, &n, &t), Ok(DataValue::Boolean(None)));
    assert_eq!(binary_op(&BinaryOperator::And, &n, &n), Ok(DataValue::Boolean(None)));
    assert_eq!(binary_op(&BinaryOperator::Or, &f, &f), Ok(boolean(false)));
    assert_eq!(binary_op(&BinaryOperator::Or, &n, &t), Ok(boolean(true)));
    assert_eq!(binary_op(&BinaryOperator::Or, &t, &u), Ok(boolean(true)));
    assert_eq!(binary_op(&BinaryOperator::Or, &n, &f), Ok(DataValue::Boolean(None)));
    assert_eq!(binary_op(&BinaryOperator::Or, &u, &u), Ok(DataValue::Boolean(None)));
    assert_eq!(binary_op(&BinaryOperator::Xor, &t, &f), Ok(boolean(true)));
    assert_eq!(binary_op(&BinaryOperator::Xor, &t, &t), Ok(boolean(false)));
    assert_eq!(binary_op(&BinaryOperator::Xor, &t, &n), Ok(DataValue::Boolean(None)));
    assert_eq!(binary_op(&BinaryOperator::And, &int32(1), &int32(2)), Err(TypeError::InvalidType));
    assert_eq!(binary_op(&BinaryOperator::Or, &text("a"), &text("b")), Err(TypeError::InvalidType));
}

#[test]
fn unary_operators() {
    assert_eq!(unary_op(&UnaryOperator::Not, &boolean(true)), Ok(boolean(false)));
    assert_eq!(unary_op(&UnaryOperator::Not, &boolean(false)), Ok(boolean(true)));
    assert_eq!(unary_op(&UnaryOperator::Not, &DataValue::Boolean(None)), Ok(DataValue::Boolean(None)));
    assert_eq!(unary_op(&UnaryOperator::Not, &DataValue::Null), Ok(DataValue::Boolean(None)));
    assert_eq!(unary_op(&UnaryOperator::Not, &int32(1)), Err(TypeError::InvalidType));
    assert_eq!(unary_op(&UnaryOperator::Minus, &int32(5)), Ok(int32(-5)));
    assert_eq!(unary_op(&UnaryOperator::Minus, &int32(i32::MIN)), Err(TypeError::Overflow));
    assert_eq!(
        unary_op(&UnaryOperator::Minus, &DataValue::Decimal(Some(25000))),
        Ok(DataValue::Decimal(Some(-25000)))
    );
    assert_eq!(unary_op(&UnaryOperator::Minus, &DataValue::Int32(None)), Ok(DataValue::Int32(None)));
    assert_eq!(unary_op(&UnaryOperator::Minus, &DataValue::Null), Ok(DataValue::Null));
    assert_eq!(unary_op(&UnaryOperator::Minus, &text("a")), Err(TypeError::InvalidType));
    assert_eq!(unary_op(&UnaryOperator::Plus, &int32(5)), Ok(int32(5)));
    assert_eq!(unary_op(&UnaryOperator::Plus, &boolean(true)), Err(TypeError::InvalidType));
}

#[test]
fn whole_number_literals() {
    assert_eq!(DataValue::parse_number("0"), Ok(int32(0)));
    assert_eq!(DataValue::parse_number("1"), Ok(int32(1)));
    assert_eq!(DataValue::parse_number("00012"), Ok(int32(12)));
    assert_eq!(DataValue::parse_number("2147483647"), Ok(int32(2147483647)));
    assert_eq!(DataValue::parse_number("2147483648"), Ok(DataValue::Int64(Some(2147483648))));
    assert_eq!(
        DataValue::parse_number("9223372036854775807"),
        Ok(DataValue::Int64(Some(i64::MAX)))
    );
    assert_eq!(DataValue::parse_number("9223372036854775808"), Err(TypeError::CastFail));
    assert_eq!(
        DataValue::parse_number("99999999999999999999999999999999999999999999"),
        Err(TypeError::CastFail)
    );
}

#[test]
fn decimal_literals() {
    assert_eq!(DataValue::parse_number("2.5"), Ok(DataValue::Decimal(Some(25000))));
    assert_eq!(DataValue::parse_number(".5"), Ok(DataValue::Decimal(Some(5000))));
    assert_eq!(DataValue::parse_number("3."), Ok(DataValue::Decimal(Some(30000))));
    assert_eq!(DataValue::parse_number("0.0001"), Ok(DataValue::Decimal(Some(1))));
    assert_eq!(DataValue::parse_number("1.2345"), Ok(DataValue::Decimal(Some(12345))));
    assert_eq!(DataValue::parse_number("1.23450000"), Ok(DataValue::Decimal(Some(12345))));
    assert_eq!(DataValue::parse_number("1.23456"), Err(TypeError::CastFail));
    assert_eq!(DataValue::parse_number("0.00001"), Err(TypeError::CastFail));
    assert_eq!(
        DataValue::parse_number("922337203685477.5807"),
        Ok(DataValue::Decimal(Some(i64::MAX)))
    );
    assert_eq!(DataValue::parse_number("922337203685477.5808"), Err(TypeError::CastFail));
    assert_eq!(DataValue::parse_number("922337203685478.0"), Err(TypeError::CastFail));
}

#[test]
fn texts_that_are_no_number() {
    for text in ["", ".", "1e3", "-1", "+1", "1.2.3", "1,5", "12a", "a12", " 1", "1.x", "1.00000x", "\u{ff11}"] {
        assert_eq!(DataValue::parse_number(text), Err(TypeError::CastFail), "{:?}", text);
    }
}
