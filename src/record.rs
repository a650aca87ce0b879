//! Conversion of objects into records with named fields.
//!
//! A record converts from an object in three steps: [`record_fields`] checks
//! the object's type tag against the record's name, [`field`] removes and
//! converts each declared field in turn, and fields that the record does not
//! declare are ignored.
use vstd::prelude::*;

use crate::chars::chars_of;
use crate::convert::FromAbabaValue;
use crate::parser::{key_index, same_text};
use crate::value::{field_models, AbabaParseError, AbabaValue, Shape};

verus! {

/// The fields of an object, keyed by name.
pub type Fields = Vec<(Vec<char>, AbabaValue)>;

/// The fields of `v`, for a record named `name`: `v` must be an object, and
/// its type tag, where it has one, must be `name`.
pub fn record_fields(v: AbabaValue, name: &'static str) -> (r: Result<Fields, AbabaParseError>)
    ensures
        match v {
            AbabaValue::Object { struct_type, fields } => match struct_type {
                Some(t) => if t@ == name@ {
                    r == Ok::<Fields, AbabaParseError>(fields)
                } else {
                    r == Err::<Fields, AbabaParseError>(
                        AbabaParseError::StructTypeDidNotMatch { expected: name, got: struct_type },
                    )
                },
                None => r == Ok::<Fields, AbabaParseError>(fields),
            },
            _ => r == Err::<Fields, AbabaParseError>(
                AbabaParseError::ValueTypeDidNotMatch { expected: Shape::Object, got: v },
            ),
        },
{
    match v {
        AbabaValue::Object { struct_type, fields } => {
            let matches_name = match &struct_type {
                Some(t) => same_text(t, &chars_of(name)),
                None => true,
            };
            if matches_name {
                Ok(fields)
            } else {
                Err(AbabaParseError::StructTypeDidNotMatch { expected: name, got: struct_type })
            }
        },
        _ => Err(AbabaParseError::ValueTypeDidNotMatch { expected: Shape::Object, got: v }),
    }
}

/// Removes the field `name` from `fields` and returns its value.
pub fn take_field(fields: &mut Fields, name: &'static str) -> (r: Result<
    AbabaValue,
    AbabaParseError,
>)
    ensures
        match key_index(field_models(old(fields)@), name@) {
            Some(i) => r == Ok::<AbabaValue, AbabaParseError>(old(fields)@[i].1) && final(fields)@
                == old(fields)@.remove(i),
            None => r == Err::<AbabaValue, AbabaParseError>(
                AbabaParseError::StructFieldNotPresent { field: name },
            ) && final(fields)@ == old(fields)@,
        },
{
    let key = chars_of(name);
    let ghost fm = field_models(fields@);
    let mut i = fields.len();
    assert(fm.take(i as int) =~= fm);
    while i > 0 && !same_text(&fields[i - 1].0, &key)
        invariant
            i <= fields@.len(),
            fm == field_models(fields@),
            key@ == name@,
            key_index(fm, name@) == key_index(fm.take(i as int), name@),
        decreases i,
    {
        assert(fm.take(i as int).drop_last() =~= fm.take(i - 1));
        i = i - 1;
    }
    if i == 0 {
        return Err(AbabaParseError::StructFieldNotPresent { field: name });
    }
    assert(fm.take(i as int).last() == fm[i - 1]);
    let (_, v) = fields.remove(i - 1);
    Ok(v)
}

/// Removes the field `name` from `fields` and converts its value.
pub fn field<T: FromAbabaValue>(fields: &mut Fields, name: &'static str) -> (r: Result<
    T,
    AbabaParseError,
>)
    ensures
        match key_index(field_models(old(fields)@), name@) {
            Some(i) => final(fields)@ == old(fields)@.remove(i) && match r {
                Ok(x) => T::failure(old(fields)@[i].1) is None && T::converted(
                    old(fields)@[i].1,
                    x,
                ),
                Err(e) => T::failure(old(fields)@[i].1) == Some(e),
            },
            None => r == Err::<T, AbabaParseError>(
                AbabaParseError::StructFieldNotPresent { field: name },
            ) && final(fields)@ == old(fields)@,
        },
{
    match take_field(fields, name) {
        Ok(v) => T::from_value(v),
        Err(e) => Err(e),
    }
}

} // verus!
