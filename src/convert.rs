//! Conversion of values into typed data.
use vstd::prelude::*;

use crate::number::AbabaNumber;
use crate::value::{AbabaParseError, AbabaValue, IntType, Shape};

verus! {

/// A type that a value converts into.
///
/// A conversion either fails with the error `failure(v)`, or succeeds with a
/// result that `converted` relates to `v`.
pub trait FromAbabaValue: Sized {
    /// The error that converting `v` fails with, if it fails.
    spec fn failure(v: AbabaValue) -> Option<AbabaParseError>;

    /// `x` is a result of converting `v`, where the conversion does not fail.
    spec fn converted(v: AbabaValue, x: Self) -> bool;

    fn from_value(v: AbabaValue) -> (r: Result<Self, AbabaParseError>)
        ensures
            match r {
                Ok(x) => Self::failure(v) is None && Self::converted(v, x),
                Err(e) => Self::failure(v) == Some(e),
            },
    ;
}

impl IntType {
    pub open spec fn min(self) -> int {
        match self {
            IntType::I8 => i8::MIN as int,
            IntType::U8 => 0,
            IntType::I16 => i16::MIN as int,
            IntType::U16 => 0,
            IntType::I32 => i32::MIN as int,
            IntType::U32 => 0,
            IntType::I64 => i64::MIN as int,
            IntType::U64 => 0,
            IntType::Isize => isize::MIN as int,
            IntType::Usize => 0,
        }
    }

    pub open spec fn max(self) -> int {
        match self {
            IntType::I8 => i8::MAX as int,
            IntType::U8 => u8::MAX as int,
            IntType::I16 => i16::MAX as int,
            IntType::U16 => u16::MAX as int,
            IntType::I32 => i32::MAX as int,
            IntType::U32 => u32::MAX as int,
            IntType::I64 => i64::MAX as int,
            IntType::U64 => u64::MAX as int,
            IntType::Isize => isize::MAX as int,
            IntType::Usize => usize::MAX as int,
        }
    }

    /// The least and the greatest value of the type.
    pub fn bounds(self) -> (r: (i128, i128))
        ensures
            r.0 == self.min(),
            r.1 == self.max(),
    {
        match self {
            IntType::I8 => (i8::MIN as i128, i8::MAX as i128),
            IntType::U8 => (0, u8::MAX as i128),
            IntType::I16 => (i16::MIN as i128, i16::MAX as i128),
            IntType::U16 => (0, u16::MAX as i128),
            IntType::I32 => (i32::MIN as i128, i32::MAX as i128),
            IntType::U32 => (0, u32::MAX as i128),
            IntType::I64 => (i64::MIN as i128, i64::MAX as i128),
            IntType::U64 => (0, u64::MAX as i128),
            IntType::Isize => (isize::MIN as i128, isize::MAX as i128),
            IntType::Usize => (0, usize::MAX as i128),
        }
    }
}

/// Converting `v` into the integer type `t`: a number within the type's
/// range gives that number rounded toward zero.
pub open spec fn integer_result(v: AbabaValue, t: IntType) -> Result<int, AbabaParseError> {
    match v {
        AbabaValue::Number(n) => if n@.within(t.min(), t.max()) {
            Ok(n@.truncated())
        } else {
            Err(AbabaParseError::NumberOutOfBounds { x: n, target_type: t })
        },
        _ => Err(AbabaParseError::ValueTypeDidNotMatch { expected: Shape::Number, got: v }),
    }
}

pub open spec fn integer_failure(v: AbabaValue, t: IntType) -> Option<AbabaParseError> {
    match integer_result(v, t) {
        Ok(_) => None,
        Err(e) => Some(e),
    }
}

/// Converts `v` into an integer of type `t`.
pub fn integer_from(v: AbabaValue, t: IntType) -> (r: Result<i128, AbabaParseError>)
    ensures
        match r {
            Ok(x) => integer_result(v, t) == Ok::<int, AbabaParseError>(x as int) && t.min() <= x
                <= t.max(),
            Err(e) => integer_result(v, t) == Err::<int, AbabaParseError>(e),
        },
{
    match v {
        AbabaValue::Number(n) => {
            let (min, max) = t.bounds();
            match n.to_integer(min, max) {
                Some(x) => Ok(x),
                None => Err(AbabaParseError::NumberOutOfBounds { x: n, target_type: t }),
            }
        },
        _ => Err(AbabaParseError::ValueTypeDidNotMatch { expected: Shape::Number, got: v }),
    }
}

impl FromAbabaValue for i8 {
    open spec fn failure(v: AbabaValue) -> Option<AbabaParseError> {
        integer_failure(v, IntType::I8)
    }

    open spec fn converted(v: AbabaValue, x: i8) -> bool {
        integer_result(v, IntType::I8) == Ok::<int, AbabaParseError>(x as int)
    }

    fn from_value(v: AbabaValue) -> (r: Result<i8, AbabaParseError>) {
        match integer_from(v, IntType::I8) {
            Ok(x) => Ok(x as i8),
            Err(e) => Err(e),
        }
    }
}

impl FromAbabaValue for u8 {
    open spec fn failure(v: AbabaValue) -> Option<AbabaParseError> {
        integer_failure(v, IntType::U8)
    }

    open spec fn converted(v: AbabaValue, x: u8) -> bool {
        integer_result(v, IntType::U8) == Ok::<int, AbabaParseError>(x as int)
    }

    fn from_value(v: AbabaValue) -> (r: Result<u8, AbabaParseError>) {
        match integer_from(v, IntType::U8) {
            Ok(x) => Ok(x as u8),
            Err(e) => Err(e),
        }
    }
}

impl FromAbabaValue for i16 {
    open spec fn failure(v: AbabaValue) -> Option<AbabaParseError> {
        integer_failure(v, IntType::I16)
    }

    open spec fn converted(v: AbabaValue, x: i16) -> bool {
        integer_result(v, IntType::I16) == Ok::<int, AbabaParseError>(x as int)
    }

    fn from_value(v: AbabaValue) -> (r: Result<i16, AbabaParseError>) {
        match integer_from(v, IntType::I16) {
            Ok(x) => Ok(x as i16),
            Err(e) => Err(e),
        }
    }
}

impl FromAbabaValue for u16 {
    open spec fn failure(v: AbabaValue) -> Option<AbabaParseError> {
        integer_failure(v, IntType::U16)
    }

    open spec fn converted(v: AbabaValue, x: u16) -> bool {
        integer_result(v, IntType::U16) == Ok::<int, AbabaParseError>(x as int)
    }

    fn from_value(v: AbabaValue) -> (r: Result<u16, AbabaParseError>) {
        match integer_from(v, IntType::U16) {
            Ok(x) => Ok(x as u16),
            Err(e) => Err(e),
        }
    }
}

impl FromAbabaValue for i32 {
    open spec fn failure(v: AbabaValue) -> Option<AbabaParseError> {
        integer_failure(v, IntType::I32)
    }

    open spec fn converted(v: AbabaValue, x: i32) -> bool {
        integer_result(v, IntType::I32) == Ok::<int, AbabaParseError>(x as int)
    }

    fn from_value(v: AbabaValue) -> (r: Result<i32, AbabaParseError>) {
        match integer_from(v, IntType::I32) {
            Ok(x) => Ok(x as i32),
            Err(e) => Err(e),
        }
    }
}

impl FromAbabaValue for u32 {
    open spec fn failure(v: AbabaValue) -> Option<AbabaParseError> {
        integer_failure(v, IntType::U32)
    }

    open spec fn converted(v: AbabaValue, x: u32) -> bool {
        integer_result(v, IntType::U32) == Ok::<int, AbabaParseError>(x as int)
    }

    fn from_value(v: AbabaValue) -> (r: Result<u32, AbabaParseError>) {
        match integer_from(v, IntType::U32) {
            Ok(x) => Ok(x as u32),
            Err(e) => Err(e),
        }
    }
}

impl FromAbabaValue for i64 {
    open spec fn failure(v: AbabaValue) -> Option<AbabaParseError> {
        integer_failure(v, IntType::I64)
    }

    open spec fn converted(v: AbabaValue, x: i64) -> bool {
        integer_result(v, IntType::I64) == Ok::<int, AbabaParseError>(x as int)
    }

    fn from_value(v: AbabaValue) -> (r: Result<i64, AbabaParseError>) {
        match integer_from(v, IntType::I64) {
            Ok(x) => Ok(x as i64),
            Err(e) => Err(e),
        }
    }
}

impl FromAbabaValue for u64 {
    open spec fn failure(v: AbabaValue) -> Option<AbabaParseError> {
        integer_failure(v, IntType::U64)
    }

    open spec fn converted(v: AbabaValue, x: u64) -> bool {
        integer_result(v, IntType::U64) == Ok::<int, AbabaParseError>(x as int)
    }

    fn from_value(v: AbabaValue) -> (r: Result<u64, AbabaParseError>) {
        match integer_from(v, IntType::U64) {
            Ok(x) => Ok(x as u64),
            Err(e) => Err(e),
        }
    }
}

impl FromAbabaValue for isize {
    open spec fn failure(v: AbabaValue) -> Option<AbabaParseError> {
        integer_failure(v, IntType::Isize)
    }

    open spec fn converted(v: AbabaValue, x: isize) -> bool {
        integer_result(v, IntType::Isize) == Ok::<int, AbabaParseError>(x as int)
    }

    fn from_value(v: AbabaValue) -> (r: Result<isize, AbabaParseError>) {
        match integer_from(v, IntType::Isize) {
            Ok(x) => Ok(x as isize),
            Err(e) => Err(e),
        }
    }
}

impl FromAbabaValue for usize {
    open spec fn failure(v: AbabaValue) -> Option<AbabaParseError> {
        integer_failure(v, IntType::Usize)
    }

    open spec fn converted(v: AbabaValue, x: usize) -> bool {
        integer_result(v, IntType::Usize) == Ok::<int, AbabaParseError>(x as int)
    }

    fn from_value(v: AbabaValue) -> (r: Result<usize, AbabaParseError>) {
        match integer_from(v, IntType::Usize) {
            Ok(x) => Ok(x as usize),
            Err(e) => Err(e),
        }
    }
}

impl FromAbabaValue for AbabaNumber {
    open spec fn failure(v: AbabaValue) -> Option<AbabaParseError> {
        match v {
            AbabaValue::Number(_) => None,
            _ => Some(AbabaParseError::ValueTypeDidNotMatch { expected: Shape::Number, got: v }),
        }
    }

    open spec fn converted(v: AbabaValue, x: AbabaNumber) -> bool {
        v == AbabaValue::Number(x)
    }

    fn from_value(v: AbabaValue) -> (r: Result<AbabaNumber, AbabaParseError>) {
        match v {
            AbabaValue::Number(n) => Ok(n),
            _ => Err(AbabaParseError::ValueTypeDidNotMatch { expected: Shape::Number, got: v }),
        }
    }
}

/// The error of the first item of `items` whose conversion fails, if any.
pub open spec fn first_failure<T: FromAbabaValue>(items: Seq<AbabaValue>) -> Option<
    AbabaParseError,
>
    decreases items.len(),
{
    if items.len() == 0 {
        None
    } else {
        match T::failure(items[0]) {
            Some(e) => Some(e),
            None => first_failure::<T>(items.drop_first()),
        }
    }
}

impl<T: FromAbabaValue> FromAbabaValue for Vec<T> {
    open spec fn failure(v: AbabaValue) -> Option<AbabaParseError> {
        match v {
            AbabaValue::List(items) => first_failure::<T>(items@),
            _ => Some(AbabaParseError::ValueTypeDidNotMatch { expected: Shape::List, got: v }),
        }
    }

    open spec fn converted(v: AbabaValue, x: Vec<T>) -> bool {
        match v {
            AbabaValue::List(items) => x@.len() == items@.len() && forall|i: int|
                0 <= i < items@.len() ==> T::converted(#[trigger] items@[i], x@[i]),
            _ => false,
        }
    }

    fn from_value(v: AbabaValue) -> (r: Result<Vec<T>, AbabaParseError>) {
        match v {
            AbabaValue::List(items) => {
                let ghost all = items@;
                let mut items = items;
                let mut out: Vec<T> = Vec::new();
                while items.len() > 0
                    invariant
                        match v {
                            AbabaValue::List(its) => its@ == all,
                            _ => false,
                        },
                        out@.len() + items@.len() == all.len(),
                        items@ == all.skip(out@.len() as int),
                        first_failure::<T>(all) == first_failure::<T>(items@),
                        forall|i: int| 0 <= i < out@.len() ==> T::converted(#[trigger] all[i], out@[i]),
                    decreases items@.len(),
                {
                    let ghost before = items@;
                    let x = items.remove(0);
                    assert(before.drop_first() =~= items@);
                    assert(before[0] == x);
                    assert(items@ =~= all.skip(out@.len() as int + 1));
                    match T::from_value(x) {
                        Ok(y) => {
                            out.push(y);
                        },
                        Err(e) => {
                            assert(before.len() > 0);
                            assert(first_failure::<T>(before) == Some(e));
                            return Err(e);
                        },
                    }
                }
                Ok(out)
            },
            _ => Err(AbabaParseError::ValueTypeDidNotMatch { expected: Shape::List, got: v }),
        }
    }
}

impl<T: FromAbabaValue> FromAbabaValue for (T, T) {
    open spec fn failure(v: AbabaValue) -> Option<AbabaParseError> {
        match v {
            AbabaValue::Tuple(items) => if items@.len() < 2 {
                Some(AbabaParseError::NotEnoughElements { expected: 2, got: items@.len() as usize })
            } else {
                first_failure::<T>(items@.take(2))
            },
            _ => Some(AbabaParseError::ValueTypeDidNotMatch { expected: Shape::Tuple, got: v }),
        }
    }

    open spec fn converted(v: AbabaValue, x: (T, T)) -> bool {
        match v {
            AbabaValue::Tuple(items) => T::converted(items@[0], x.0) && T::converted(items@[1], x.1),
            _ => false,
        }
    }

    fn from_value(v: AbabaValue) -> (r: Result<(T, T), AbabaParseError>) {
        match v {
            AbabaValue::Tuple(items) => {
                if items.len() < 2 {
                    return Err(AbabaParseError::NotEnoughElements { expected: 2, got: items.len() });
                }
                let ghost all = items@;
                let mut items = items;
                let a = items.remove(0);
                let b = items.remove(0);
                proof {
                    reveal_with_fuel(first_failure, 3);
                }
                assert(all.take(2).drop_first().drop_first() =~= Seq::<AbabaValue>::empty());
                assert(all.take(2).drop_first()[0] == all[1]);
                let a = match T::from_value(a) {
                    Ok(a) => a,
                    Err(e) => return Err(e),
                };
                let b = match T::from_value(b) {
                    Ok(b) => b,
                    Err(e) => return Err(e),
                };
                Ok((a, b))
            },
            _ => Err(AbabaParseError::ValueTypeDidNotMatch { expected: Shape::Tuple, got: v }),
        }
    }
}

impl<T: FromAbabaValue> FromAbabaValue for (T, T, T) {
    open spec fn failure(v: AbabaValue) -> Option<AbabaParseError> {
        match v {
            AbabaValue::Tuple(items) => if items@.len() < 3 {
                Some(AbabaParseError::NotEnoughElements { expected: 3, got: items@.len() as usize })
            } else {
                first_failure::<T>(items@.take(3))
            },
            _ => Some(AbabaParseError::ValueTypeDidNotMatch { expected: Shape::Tuple, got: v }),
        }
    }

    open spec fn converted(v: AbabaValue, x: (T, T, T)) -> bool {
        match v {
            AbabaValue::Tuple(items) => T::converted(items@[0], x.0) && T::converted(items@[1], x.1)
                && T::converted(items@[2], x.2),
            _ => false,
        }
    }

    fn from_value(v: AbabaValue) -> (r: Result<(T, T, T), AbabaParseError>) {
        match v {
            AbabaValue::Tuple(items) => {
                if items.len() < 3 {
                    return Err(AbabaParseError::NotEnoughElements { expected: 3, got: items.len() });
                }
                let ghost all = items@;
                let mut items = items;
                let a = items.remove(0);
                let b = items.remove(0);
                let c = items.remove(0);
                proof {
                    reveal_with_fuel(first_failure, 4);
                }
                assert(all.take(3).drop_first().drop_first().drop_first()
                    =~= Seq::<AbabaValue>::empty());
                assert(all.take(3).drop_first()[0] == all[1]);
                assert(all.take(3).drop_first().drop_first()[0] == all[2]);
                let a = match T::from_value(a) {
                    Ok(a) => a,
                    Err(e) => return Err(e),
                };
                let b = match T::from_value(b) {
                    Ok(b) => b,
                    Err(e) => return Err(e),
                };
                let c = match T::from_value(c) {
                    Ok(c) => c,
                    Err(e) => return Err(e),
                };
                Ok((a, b, c))
            },
            _ => Err(AbabaParseError::ValueTypeDidNotMatch { expected: Shape::Tuple, got: v }),
        }
    }
}

} // verus!
