//! The value tree of a configuration, and the errors of parsing and conversion.
use vstd::prelude::*;

use crate::number::{AbabaNumber, NumberModel};

verus! {

/// A parsed configuration value.
#[derive(Debug)]
pub enum AbabaValue {
    Number(AbabaNumber),
    /// A record: an optional type tag and its fields, each key at most once.
    Object { struct_type: Option<Vec<char>>, fields: Vec<(Vec<char>, AbabaValue)> },
    List(Vec<AbabaValue>),
    Tuple(Vec<AbabaValue>),
}

/// The mathematical content of a value.
pub enum ValueModel {
    Number(NumberModel),
    Object { struct_type: Option<Seq<char>>, fields: Seq<(Seq<char>, ValueModel)> },
    List(Seq<ValueModel>),
    Tuple(Seq<ValueModel>),
}

pub open spec fn text_option(t: Option<Vec<char>>) -> Option<Seq<char>> {
    match t {
        Some(s) => Some(s@),
        None => None,
    }
}

pub open spec fn model_of(v: AbabaValue) -> ValueModel
    decreases v,
{
    match v {
        AbabaValue::Number(n) => ValueModel::Number(n@),
        AbabaValue::Object { struct_type, fields } => ValueModel::Object {
            struct_type: text_option(struct_type),
            fields: Seq::new(
                fields@.len(),
                |i: int|
                    if 0 <= i < fields@.len() {
                        (fields@[i].0@, model_of(fields@[i].1))
                    } else {
                        arbitrary()
                    },
            ),
        },
        AbabaValue::List(items) => ValueModel::List(
            Seq::new(
                items@.len(),
                |i: int|
                    if 0 <= i < items@.len() {
                        model_of(items@[i])
                    } else {
                        arbitrary()
                    },
            ),
        ),
        AbabaValue::Tuple(items) => ValueModel::Tuple(
            Seq::new(
                items@.len(),
                |i: int|
                    if 0 <= i < items@.len() {
                        model_of(items@[i])
                    } else {
                        arbitrary()
                    },
            ),
        ),
    }
}

} // verus!

verus! {

impl View for AbabaValue {
    type V = ValueModel;

    open spec fn view(&self) -> ValueModel {
        model_of(*self)
    }
}

/// The models of a sequence of values.
pub open spec fn models(s: Seq<AbabaValue>) -> Seq<ValueModel> {
    s.map_values(|v: AbabaValue| model_of(v))
}

/// The models of a sequence of fields.
pub open spec fn field_models(s: Seq<(Vec<char>, AbabaValue)>) -> Seq<(Seq<char>, ValueModel)> {
    s.map_values(|p: (Vec<char>, AbabaValue)| (p.0@, model_of(p.1)))
}

pub proof fn lemma_model_of(v: AbabaValue)
    ensures
        match v {
            AbabaValue::Number(n) => v@ == ValueModel::Number(n@),
            AbabaValue::Object { struct_type, fields } => v@ == (ValueModel::Object {
                struct_type: text_option(struct_type),
                fields: field_models(fields@),
            }),
            AbabaValue::List(items) => v@ == ValueModel::List(models(items@)),
            AbabaValue::Tuple(items) => v@ == ValueModel::Tuple(models(items@)),
        },
{
    match v {
        AbabaValue::Number(n) => {},
        AbabaValue::Object { struct_type, fields } => {
            assert(field_models(fields@) =~= match model_of(v) {
                ValueModel::Object { fields: f, .. } => f,
                _ => arbitrary(),
            });
        },
        AbabaValue::List(items) => {
            assert(models(items@) =~= match model_of(v) {
                ValueModel::List(s) => s,
                _ => arbitrary(),
            });
        },
        AbabaValue::Tuple(items) => {
            assert(models(items@) =~= match model_of(v) {
                ValueModel::Tuple(s) => s,
                _ => arbitrary(),
            });
        },
    }
}

fn clone_items(items: &Vec<AbabaValue>) -> (r: Vec<AbabaValue>)
    ensures
        models(r@) == models(items@),
    decreases items,
{
    let mut r: Vec<AbabaValue> = Vec::new();
    let mut i: usize = 0;
    while i < items.len()
        invariant
            i <= items@.len(),
            models(r@) == models(items@.take(i as int)),
        decreases items@.len() - i,
    {
        proof {
            vstd::std_specs::vec::axiom_vec_index_decreases(*items, i as int);
        }
        let x = items[i].clone();
        let ghost before = models(r@);
        r.push(x);
        assert(models(r@) =~= before.push(items@[i as int]@));
        i = i + 1;
        assert(models(items@.take(i as int)) =~= before.push(items@[i - 1]@));
    }
    assert(items@.take(i as int) =~= items@);
    r
}

fn clone_fields(fields: &Vec<(Vec<char>, AbabaValue)>) -> (r: Vec<(Vec<char>, AbabaValue)>)
    ensures
        field_models(r@) == field_models(fields@),
    decreases fields,
{
    let mut r: Vec<(Vec<char>, AbabaValue)> = Vec::new();
    let mut i: usize = 0;
    while i < fields.len()
        invariant
            i <= fields@.len(),
            field_models(r@) == field_models(fields@.take(i as int)),
        decreases fields@.len() - i,
    {
        proof {
            vstd::std_specs::vec::axiom_vec_index_decreases(*fields, i as int);
            assert(decreases_to!(fields@[i as int] => fields@[i as int].1));
        }
        let k = fields[i].0.clone();
        let v = fields[i].1.clone();
        let ghost before = field_models(r@);
        r.push((k, v));
        assert(field_models(r@) =~= before.push((fields@[i as int].0@, fields@[i as int].1@)));
        i = i + 1;
        assert(field_models(fields@.take(i as int)) =~= before.push(
            (fields@[i - 1].0@, fields@[i - 1].1@),
        ));
    }
    assert(fields@.take(i as int) =~= fields@);
    r
}

impl Clone for AbabaValue {
    fn clone(&self) -> (r: Self)
        ensures
            r@ == self@,
        decreases self,
    {
        proof {
            lemma_model_of(*self);
        }
        let r = match self {
            AbabaValue::Number(n) => AbabaValue::Number(
                AbabaNumber {
                    negative: n.negative,
                    int_digits: n.int_digits.clone(),
                    frac_digits: n.frac_digits.clone(),
                },
            ),
            AbabaValue::Object { struct_type, fields } => AbabaValue::Object {
                struct_type: match struct_type {
                    Some(t) => Some(t.clone()),
                    None => None,
                },
                fields: clone_fields(fields),
            },
            AbabaValue::List(items) => AbabaValue::List(clone_items(items)),
            AbabaValue::Tuple(items) => AbabaValue::Tuple(clone_items(items)),
        };
        proof {
            lemma_model_of(r);
        }
        r
    }
}

/// The shapes of value that a conversion may require.
#[derive(Debug, Clone, Copy, PartialEq, Eq)]
pub enum Shape {
    Number,
    Object,
    List,
    Tuple,
}

/// The integer types that a number converts to.
#[derive(Debug, Clone, Copy, PartialEq, Eq)]
pub enum IntType {
    I8,
    U8,
    I16,
    U16,
    I32,
    U32,
    I64,
    U64,
    Isize,
    Usize,
}

/// Why a text could not be parsed, or a value not converted.
#[derive(Debug)]
pub enum AbabaParseError {
    /// The number lies outside the range of the target integer type.
    NumberOutOfBounds { x: AbabaNumber, target_type: IntType },
    /// The value has another shape than the conversion requires.
    ValueTypeDidNotMatch { expected: Shape, got: AbabaValue },
    /// The object's type tag names another record.
    StructTypeDidNotMatch { expected: &'static str, got: Option<Vec<char>> },
    /// A field of the record is missing from the object.
    StructFieldNotPresent { field: &'static str },
    /// The input ended where a value was required.
    NoContent,
    /// The input ended before the closing bracket, parenthesis or brace.
    MissingEndBrace { brace: char },
    /// The tuple is shorter than the target requires.
    NotEnoughElements { expected: i32, got: usize },
    /// The text of the number token at this position is not a decimal number.
    MalformedNumber { position: usize },
    /// The token at this position does not fit the grammar there.
    UnexpectedToken { position: usize },
}

} // verus!
