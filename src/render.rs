//! The canonical text of a value.
use vstd::prelude::*;

use crate::number::NumberModel;
use crate::ppm::hex_digit;
use crate::value::{field_models, lemma_model_of, models, AbabaValue, ValueModel};

verus! {

/// The character of a decimal digit; `?` for what is not one.
pub open spec fn digit_of(d: u8) -> char {
    if d < 10 {
        hex_digit(d as nat)
    } else {
        '?'
    }
}

pub open spec fn digit_chars(ds: Seq<u8>) -> Seq<char> {
    ds.map_values(|d: u8| digit_of(d))
}

/// A number as an optional `-`, the integer digits (`0` where there are
/// none), and the fraction digits after a `.` where there are any.
pub open spec fn render_number(n: NumberModel) -> Seq<char> {
    (if n.negative {
        seq!['-']
    } else {
        Seq::empty()
    }) + (if n.int_digits.len() == 0 {
        seq!['0']
    } else {
        digit_chars(n.int_digits)
    }) + (if n.frac_digits.len() == 0 {
        Seq::empty()
    } else {
        seq!['.'] + digit_chars(n.frac_digits)
    })
}

/// The canonical text of a value: no whitespace, no trailing commas, and an
/// object's fields as `key:value` in their order.
pub open spec fn render(v: ValueModel) -> Seq<char>
    decreases v, 0nat,
{
    match v {
        ValueModel::Number(n) => render_number(n),
        ValueModel::List(items) => seq!['['] + render_items(items, items.len()) + seq![']'],
        ValueModel::Tuple(items) => seq!['('] + render_items(items, items.len()) + seq![')'],
        ValueModel::Object { struct_type, fields } => (match struct_type {
            Some(t) => t,
            None => Seq::empty(),
        }) + seq!['{'] + render_fields(fields, fields.len()) + seq!['}'],
    }
}

/// The first `n` items, rendered and separated by commas.
pub open spec fn render_items(items: Seq<ValueModel>, n: nat) -> Seq<char>
    decreases items, n,
{
    if n == 0 || n > items.len() {
        Seq::empty()
    } else if n == 1 {
        render(items[0])
    } else {
        render_items(items, (n - 1) as nat) + seq![','] + render(items[n - 1])
    }
}

/// The first `n` fields, rendered as `key:value` and separated by commas.
pub open spec fn render_fields(fields: Seq<(Seq<char>, ValueModel)>, n: nat) -> Seq<char>
    decreases fields, n,
{
    if n == 0 || n > fields.len() {
        Seq::empty()
    } else if n == 1 {
        fields[0].0 + seq![':'] + render(fields[0].1)
    } else {
        render_fields(fields, (n - 1) as nat) + seq![','] + fields[n - 1].0 + seq![':'] + render(
            fields[n - 1].1,
        )
    }
}

fn digit_char(d: u8) -> (c: char)
    ensures
        c == digit_of(d),
{
    if d < 10 {
        (d + 48) as char
    } else {
        '?'
    }
}

fn push_digits(out: &mut Vec<char>, ds: &Vec<u8>)
    ensures
        final(out)@ == old(out)@ + digit_chars(ds@),
{
    let ghost before = out@;
    let mut i: usize = 0;
    while i < ds.len()
        invariant
            i <= ds@.len(),
            out@ == before + digit_chars(ds@.take(i as int)),
        decreases ds@.len() - i,
    {
        out.push(digit_char(ds[i]));
        i = i + 1;
        assert(digit_chars(ds@.take(i as int)) =~= digit_chars(ds@.take(i - 1)).push(
            digit_of(ds@[i - 1]),
        ));
    }
    assert(ds@.take(i as int) =~= ds@);
}

fn push_text(out: &mut Vec<char>, t: &Vec<char>)
    ensures
        final(out)@ == old(out)@ + t@,
{
    let ghost before = out@;
    let mut i: usize = 0;
    while i < t.len()
        invariant
            i <= t@.len(),
            out@ == before + t@.take(i as int),
        decreases t@.len() - i,
    {
        out.push(t[i]);
        i = i + 1;
        assert(out@ =~= before + t@.take(i as int));
    }
    assert(t@.take(i as int) =~= t@);
}

/// Appends the items in brackets (`list`) or parentheses, separated by
/// commas.
fn write_items(items: &Vec<AbabaValue>, list: bool, out: &mut Vec<char>)
    ensures
        final(out)@ == old(out)@ + seq![if list { '[' } else { '(' }] + render_items(
            models(items@),
            items@.len(),
        ) + seq![if list { ']' } else { ')' }],
    decreases items,
{
    let ghost before = out@;
    out.push(if list { '[' } else { '(' });
    let ghost ms = models(items@);
    let mut i: usize = 0;
    while i < items.len()
        invariant
            i <= items@.len(),
            ms == models(items@),
            out@ == before + seq![if list { '[' } else { '(' }] + render_items(ms, i as nat),
        decreases items@.len() - i,
    {
        proof {
            vstd::std_specs::vec::axiom_vec_index_decreases(*items, i as int);
        }
        if i > 0 {
            out.push(',');
        }
        assert(ms[i as int] == items@[i as int]@);
        items[i].write_to(out);
        i = i + 1;
    }
    out.push(if list { ']' } else { ')' });
}

/// Appends the fields as `key:value` in braces, separated by commas.
fn write_fields(fields: &Vec<(Vec<char>, AbabaValue)>, out: &mut Vec<char>)
    ensures
        final(out)@ == old(out)@ + seq!['{'] + render_fields(
            field_models(fields@),
            fields@.len(),
        ) + seq!['}'],
    decreases fields,
{
    let ghost before = out@;
    out.push('{');
    let ghost fm = field_models(fields@);
    let mut i: usize = 0;
    while i < fields.len()
        invariant
            i <= fields@.len(),
            fm == field_models(fields@),
            out@ == before + seq!['{'] + render_fields(fm, i as nat),
        decreases fields@.len() - i,
    {
        proof {
            vstd::std_specs::vec::axiom_vec_index_decreases(*fields, i as int);
            assert(decreases_to!(fields@[i as int] => fields@[i as int].1));
        }
        if i > 0 {
            out.push(',');
        }
        assert(fm[i as int] == (fields@[i as int].0@, fields@[i as int].1@));
        push_text(out, &fields[i].0);
        out.push(':');
        fields[i].1.write_to(out);
        i = i + 1;
    }
    out.push('}');
}

impl AbabaValue {
    /// Appends the canonical text of this value to `out`.
    pub fn write_to(&self, out: &mut Vec<char>)
        ensures
            final(out)@ == old(out)@ + render(self@),
        decreases self,
    {
        proof {
            lemma_model_of(*self);
        }
        let ghost before = out@;
        match self {
            AbabaValue::Number(n) => {
                if n.negative {
                    out.push('-');
                }
                if n.int_digits.len() == 0 {
                    out.push('0');
                } else {
                    push_digits(out, &n.int_digits);
                }
                if n.frac_digits.len() > 0 {
                    out.push('.');
                    push_digits(out, &n.frac_digits);
                }
                assert(out@ =~= before + render(self@));
            },
            AbabaValue::List(items) => {
                write_items(items, true, out);
                assert(out@ =~= before + render(self@));
            },
            AbabaValue::Tuple(items) => {
                write_items(items, false, out);
                assert(out@ =~= before + render(self@));
            },
            AbabaValue::Object { struct_type, fields } => {
                match struct_type {
                    Some(t) => push_text(out, t),
                    None => {},
                }
                write_fields(fields, out);
                assert(out@ =~= before + render(self@));
            },
        }
    }

    /// The canonical text of this value.
    pub fn to_text(&self) -> (s: Vec<char>)
        ensures
            s@ == render(self@),
    {
        let mut out: Vec<char> = Vec::new();
        self.write_to(&mut out);
        assert(out@ =~= render(self@));
        out
    }
}

} // verus!
