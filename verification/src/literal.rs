//! Numeric literals: the text of a number and the value it denotes.

use crate::types::{value_result, DataValue, Datum, LogicalType, TypeError, DECIMAL_UNIT};
use vstd::prelude::*;
use vstd::std_specs::iter::IteratorSpec;

verus! {

/// The value of a decimal digit.
pub open spec fn digit(c: char) -> Option<int> {
    if '0' <= c <= '9' {
        Some(c as int - '0' as int)
    } else {
        None
    }
}

/// The number that a text of decimal digits denotes; the empty text
/// denotes zero.
pub open spec fn digits(s: Seq<char>) -> Option<int>
    decreases s.len(),
{
    if s.len() == 0 {
        Some(0)
    } else {
        match (digits(s.drop_last()), digit(s.last())) {
            (Some(n), Some(d)) => Some(10 * n + d),
            _ => None,
        }
    }
}

/// How many `Decimal` units a one in the digit at position `k` after the
/// decimal point is worth.
pub open spec fn place(k: int) -> int {
    if k == 0 {
        1000
    } else if k == 1 {
        100
    } else if k == 2 {
        10
    } else if k == 3 {
        1
    } else {
        0
    }
}

/// The `Decimal` units that the digits after a decimal point denote. The
/// digits beyond the scale of `Decimal` must be zero: a fraction that is
/// not a whole number of units denotes nothing.
pub open spec fn fraction_units(f: Seq<char>) -> Option<int>
    decreases f.len(),
{
    if f.len() == 0 {
        Some(0)
    } else {
        match (fraction_units(f.drop_last()), digit(f.last())) {
            (Some(n), Some(d)) => if f.len() <= 4 {
                Some(n + d * place(f.len() - 1))
            } else if d == 0 {
                Some(n)
            } else {
                None
            },
            _ => None,
        }
    }
}

/// The position of the first decimal point at or after `start`.
pub open spec fn dot_from(s: Seq<char>, start: int) -> Option<int>
    decreases s.len() - start,
{
    if start < 0 || start >= s.len() {
        None
    } else if s[start] == '.' {
        Some(start)
    } else {
        dot_from(s, start + 1)
    }
}

/// The value of a whole number: an `Integer` if it is one, else a
/// `Bigint` if it is one.
pub open spec fn whole_value(n: int) -> Result<Datum, TypeError> {
    if LogicalType::Integer.fits(n) {
        Ok(Datum::of_int(LogicalType::Integer, n))
    } else if LogicalType::Bigint.fits(n) {
        Ok(Datum::of_int(LogicalType::Bigint, n))
    } else {
        Err(TypeError::CastFail)
    }
}

/// The value of a number of `Decimal` units.
pub open spec fn decimal_value(units: int) -> Result<Datum, TypeError> {
    if LogicalType::Decimal.fits(units) {
        Ok(Datum::of_int(LogicalType::Decimal, units))
    } else {
        Err(TypeError::CastFail)
    }
}

/// The value that the text of an unsigned number denotes.
///
/// Digits alone denote a whole number. Digits, a decimal point and digits
/// denote a `Decimal`; either side of the point may be empty, not both. Any
/// other text, and a number that is too large, fail with `CastFail`.
pub open spec fn literal_value(s: Seq<char>) -> Result<Datum, TypeError> {
    match dot_from(s, 0) {
        None => if s.len() == 0 {
            Err(TypeError::CastFail)
        } else {
            match digits(s) {
                Some(n) => whole_value(n),
                None => Err(TypeError::CastFail),
            }
        },
        Some(p) => if s.len() == 1 {
            Err(TypeError::CastFail)
        } else {
            match (digits(s.take(p)), fraction_units(s.skip(p + 1))) {
                (Some(whole), Some(fraction)) => decimal_value(whole * DECIMAL_UNIT + fraction),
                _ => Err(TypeError::CastFail),
            }
        },
    }
}

/// What [`dot_from`] finds is the first decimal point at or after `start`;
/// it finds nothing exactly when there is none.
pub proof fn lemma_dot_from(s: Seq<char>, start: int)
    requires
        0 <= start,
    ensures
        match dot_from(s, start) {
            Some(p) => start <= p < s.len() && s[p] == '.' && forall|j: int|
                start <= j < p ==> s[j] != '.',
            None => forall|j: int| start <= j < s.len() ==> s[j] != '.',
        },
    decreases s.len() - start,
{
    if start < s.len() && s[start] != '.' {
        lemma_dot_from(s, start + 1);
    }
}

/// The number a text of digits denotes is at least the number its first
/// `k` digits denote, and a text whose first `k` characters are not all
/// digits denotes no number.
pub proof fn lemma_digits_prefix(s: Seq<char>, k: int)
    requires
        0 <= k <= s.len(),
    ensures
        digits(s.take(k)) is None ==> digits(s) is None,
        digits(s) is Some ==> 0 <= digits(s.take(k))->Some_0 <= digits(s)->Some_0,
    decreases s.len() - k,
{
    if k == s.len() {
        assert(s.take(k) =~= s);
        lemma_digits_nonnegative(s);
    } else {
        lemma_digits_prefix(s, k + 1);
        assert(s.take(k + 1).drop_last() =~= s.take(k));
        lemma_digits_nonnegative(s.take(k));
    }
}

proof fn lemma_digits_nonnegative(s: Seq<char>)
    ensures
        digits(s) is Some ==> digits(s)->Some_0 >= 0,
    decreases s.len(),
{
    if s.len() > 0 {
        lemma_digits_nonnegative(s.drop_last());
    }
}

/// The units a fraction denotes are at least zero and less than one, and a
/// fraction whose first `k` characters denote nothing denotes nothing.
pub proof fn lemma_fraction_prefix(f: Seq<char>, k: int)
    requires
        0 <= k <= f.len(),
    ensures
        fraction_units(f.take(k)) is None ==> fraction_units(f) is None,
    decreases f.len() - k,
{
    if k == f.len() {
        assert(f.take(k) =~= f);
    } else {
        lemma_fraction_prefix(f, k + 1);
        assert(f.take(k + 1).drop_last() =~= f.take(k));
    }
}

fn digit_of(c: char) -> (r: Option<u8>)
    ensures
        match r {
            Some(d) => digit(c) == Some(d as int) && d <= 9,
            None => digit(c) is None,
        },
{
    if c >= '0' && c <= '9' {
        Some((c as u32 - '0' as u32) as u8)
    } else {
        None
    }
}

fn place_of(k: usize) -> (r: i128)
    ensures
        r == place(k as int),
{
    if k == 0 {
        1000
    } else if k == 1 {
        100
    } else if k == 2 {
        10
    } else if k == 3 {
        1
    } else {
        0
    }
}

impl DataValue {
    /// The value that the text of an unsigned number denotes; see
    /// [`literal_value`].
    pub fn parse_number(text: &str) -> (r: Result<DataValue, TypeError>)
        ensures
            value_result(r) == literal_value(text@),
    {
        broadcast use {vstd::string::next_postcondition, vstd::string::axiom_spec_iter};

        let ghost s = text@;
        let mut chars = text.chars();
        let mut whole: i128 = 0;
        let mut any = false;
        let mut dotted = false;
        let ghost mut i: int = 0;
        assert(s.take(0) =~= Seq::empty());
        assert(s.skip(0) =~= s);
        loop
            invariant_except_break
                !dotted,
                chars.remaining() == s.skip(i),
            invariant
                0 <= i <= s.len(),
                s == text@,
                chars.decrease() is Some,
                any == (i > 0),
                dot_from(s, 0) == dot_from(s, i),
                digits(s.take(i)) == Some(whole as int),
                0 <= whole <= i64::MAX,
            ensures
                dotted ==> i < s.len() && dot_from(s, 0) == Some(i) && chars.remaining() == s.skip(
                    i + 1,
                ),
                !dotted ==> i == s.len() && dot_from(s, 0) is None,
            decreases chars.decrease()->Some_0,
        {
            let c = match chars.next() {
                None => {
                    break;
                },
                Some(c) => c,
            };
            proof {
                assert(s.skip(i)[0] == s[i]);
                assert(s.skip(i).drop_first() =~= s.skip(i + 1));
            }
            if c == '.' {
                dotted = true;
                break;
            }
            proof {
                assert(s.take(i + 1).drop_last() =~= s.take(i));
                assert(s.take(i + 1).last() == c);
                lemma_dot_from(s, i + 1);
            }
            let d = match digit_of(c) {
                None => {
                    proof {
                        lemma_digits_prefix(s, i + 1);
                        if dot_from(s, 0) is Some {
                            let p = dot_from(s, 0)->Some_0;
                            assert(s.take(p).take(i + 1) =~= s.take(i + 1));
                            lemma_digits_prefix(s.take(p), i + 1);
                        }
                    }
                    return Err(TypeError::CastFail);
                },
                Some(d) => d,
            };
            whole = whole * 10 + d as i128;
            if whole > i64::MAX as i128 {
                proof {
                    lemma_digits_prefix(s, i + 1);
                    if dot_from(s, 0) is Some {
                        let p = dot_from(s, 0)->Some_0;
                        assert(s.take(p).take(i + 1) =~= s.take(i + 1));
                        lemma_digits_prefix(s.take(p), i + 1);
                        lemma_fraction_nonnegative(s.skip(p + 1));
                        if digits(s.take(p)) is Some && fraction_units(s.skip(p + 1)) is Some {
                            let w = digits(s.take(p))->Some_0;
                            assert(w * DECIMAL_UNIT >= w) by (nonlinear_arith)
                                requires
                                    w >= 0,
                                    DECIMAL_UNIT == 10000,
                            ;
                        }
                    }
                }
                return Err(TypeError::CastFail);
            }
            any = true;
            proof {
                i = i + 1;
            }
        }
        if !dotted {
            assert(s.take(s.len() as int) =~= s);
            if !any {
                return Err(TypeError::CastFail);
            }
            return match DataValue::from_int(&LogicalType::Integer, whole) {
                Some(v) => Ok(v),
                None => match DataValue::from_int(&LogicalType::Bigint, whole) {
                    Some(v) => Ok(v),
                    None => Err(TypeError::CastFail),
                },
            };
        }
        let ghost f = s.skip(i + 1);
        let mut fraction: i128 = 0;
        let mut k: usize = 0;
        let ghost mut j: int = 0;
        assert(f.take(0) =~= Seq::empty());
        assert(f.skip(0) =~= f);
        loop
            invariant
                0 <= j <= f.len(),
                j >= 4 ==> k == 4,
                j < 4 ==> k == j,
                s == text@,
                f == s.skip(i + 1),
                0 <= i < s.len(),
                any == (i > 0),
                chars.remaining() == f.skip(j),
                chars.decrease() is Some,
                dot_from(s, 0) == Some(i),
                digits(s.take(i)) == Some(whole as int),
                0 <= whole <= i64::MAX,
                fraction_units(f.take(j)) == Some(fraction as int),
                0 <= fraction <= 9999,
            ensures
                j == f.len(),
            decreases chars.decrease()->Some_0,
        {
            let c = match chars.next() {
                None => {
                    break;
                },
                Some(c) => c,
            };
            proof {
                assert(f.skip(j)[0] == f[j]);
                assert(f.skip(j).drop_first() =~= f.skip(j + 1));
                assert(f.take(j + 1).drop_last() =~= f.take(j));
                assert(f.take(j + 1).last() == c);
                lemma_fraction_bound(f.take(j));
            }
            match digit_of(c) {
                None => {
                    proof {
                        lemma_fraction_prefix(f, j + 1);
                    }
                    return Err(TypeError::CastFail);
                },
                Some(d) => {
                    if k < 4 {
                        fraction = fraction + d as i128 * place_of(k);
                        k = k + 1;
                        proof {
                            lemma_fraction_bound(f.take(j + 1));
                        }
                    } else if d != 0 {
                        proof {
                            lemma_fraction_prefix(f, j + 1);
                        }
                        return Err(TypeError::CastFail);
                    }
                },
            }
            proof {
                j = j + 1;
            }
        }
        assert(f.take(f.len() as int) =~= f);
        if !any && k == 0 {
            assert(s.len() == 1);
            return Err(TypeError::CastFail);
        }
        match DataValue::from_int(&LogicalType::Decimal, whole * (DECIMAL_UNIT as i128) + fraction) {
            Some(v) => Ok(v),
            None => Err(TypeError::CastFail),
        }
    }
}

proof fn lemma_fraction_nonnegative(f: Seq<char>)
    ensures
        fraction_units(f) is Some ==> fraction_units(f)->Some_0 >= 0,
    decreases f.len(),
{
    if f.len() > 0 {
        lemma_fraction_nonnegative(f.drop_last());
    }
}

/// A fraction denotes less than one: with `k` digits it is a multiple of
/// the place of its last digit below `DECIMAL_UNIT`.
proof fn lemma_fraction_bound(f: Seq<char>)
    ensures
        fraction_units(f) is Some ==> {
            let u = fraction_units(f)->Some_0;
            &&& 0 <= u <= 9999
            &&& f.len() == 0 ==> u == 0
            &&& f.len() == 1 ==> u <= 9000
            &&& f.len() == 2 ==> u <= 9900
            &&& f.len() == 3 ==> u <= 9990
        },
    decreases f.len(),
{
    if f.len() > 0 {
        lemma_fraction_bound(f.drop_last());
    }
}

} // verus!
