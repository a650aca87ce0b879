//! Rendering a value and parsing the text again gives the value back.
use vstd::prelude::*;

use crate::chars::{continues_ident, continues_number, is_digit, is_space, starts_ident};
use crate::number::{
    digit_value, digit_values, number_of, signed_number, trailing_zeros, unsigned_number,
    without_separators, NumberModel,
};
use crate::parser::{key_index, parse_fields, parse_items, parse_text, parse_value};
use crate::render::{digit_chars, digit_of, render, render_fields, render_items, render_number};
use crate::tokenizer::{first_token, in_run, lemma_run_len, lex, run_len, Run, Tok};
use crate::value::{AbabaParseError, ValueModel};

verus! {

proof fn lemma_no_separators(s: Seq<char>)
    requires
        forall|j: int| 0 <= j < s.len() ==> #[trigger] s[j] != '_',
    ensures
        without_separators(s) == s,
    decreases s.len(),
{
    reveal_with_fuel(Seq::filter, 1);
    if s.len() > 0 {
        lemma_no_separators(s.drop_last());
        assert(s.drop_last().push(s.last()) =~= s);
    }
    assert(without_separators(s) =~= s);
}

proof fn lemma_digit_chars(ds: Seq<u8>)
    requires
        forall|i: int| 0 <= i < ds.len() ==> #[trigger] ds[i] < 10,
    ensures
        digit_values(digit_chars(ds)) == ds,
        forall|i: int| 0 <= i < ds.len() ==> is_digit(#[trigger] digit_chars(ds)[i]),
        forall|i: int| 0 <= i < ds.len() ==> (digit_chars(ds)[i] == '0' <==> #[trigger] ds[i] == 0),
{
    assert forall|i: int| 0 <= i < ds.len() implies digit_value(digit_of(#[trigger] ds[i])) == ds[i]
        && is_digit(digit_of(ds[i])) && (digit_of(ds[i]) == '0' <==> ds[i] == 0) by {
        let d = ds[i];
        assert(d < 10);
    }
    assert(digit_values(digit_chars(ds)) =~= ds);
}


proof fn lemma_unsigned(n: NumberModel, ip: Seq<char>, fp: Seq<char>)
    requires
        n.wf(),
        ip == (if n.int_digits.len() == 0 {
            seq!['0']
        } else {
            digit_chars(n.int_digits)
        }),
        fp == (if n.frac_digits.len() == 0 {
            Seq::empty()
        } else {
            seq!['.'] + digit_chars(n.frac_digits)
        }),
    ensures
        unsigned_number(n.negative, ip + fp) == Some(n),
{
    lemma_digit_chars(n.int_digits);
    lemma_digit_chars(n.frac_digits);
    let fd = digit_chars(n.frac_digits);
    let body = ip + fp;
    assert forall|j: int| 0 <= j < ip.len() implies is_digit(#[trigger] body[j]) by {
        assert(body[j] == ip[j]);
    }
    if fp.len() > 0 {
        assert(body[ip.len() as int] == '.');
    }
    lemma_run_len(body, Run::Digit, ip.len() as int);
    let d = ip.len() as int;
    let frac: Seq<char> = if d < body.len() {
        body.skip(d + 1)
    } else {
        Seq::empty()
    };
    let f = frac.take(frac.len() - trailing_zeros(frac));
    if fp.len() > 0 {
        assert(frac =~= fd);
        assert forall|j: int| 0 <= j < frac.len() implies is_digit(#[trigger] frac[j]) by {}
        lemma_run_len(frac, Run::Digit, frac.len() as int);
        assert(fd.last() != '0');
        crate::number::lemma_trailing_zeros_zero(frac);
        assert(f =~= fd);
    } else {
        assert(frac =~= Seq::<char>::empty());
        assert(f =~= Seq::<char>::empty());
        assert(digit_values(f) =~= n.frac_digits);
    }
    let a = body.take(d);
    assert(a =~= ip);
    let a2 = a.skip(run_len(a, Run::Zero) as int);
    if n.int_digits.len() == 0 {
        lemma_run_len(a, Run::Zero, 1);
        assert(a2 =~= Seq::<char>::empty());
        assert(digit_values(a2) =~= n.int_digits);
    } else {
        lemma_run_len(a, Run::Zero, 0);
        assert(a2 =~= a);
    }
}

proof fn lemma_render_number_parts(n: NumberModel, ip: Seq<char>, fp: Seq<char>)
    requires
        n.wf(),
        ip == (if n.int_digits.len() == 0 {
            seq!['0']
        } else {
            digit_chars(n.int_digits)
        }),
        fp == (if n.frac_digits.len() == 0 {
            Seq::empty()
        } else {
            seq!['.'] + digit_chars(n.frac_digits)
        }),
    ensures
        ip.len() > 0,
        ip[0] != '-',
        forall|j: int| 0 <= j < ip.len() ==> #[trigger] ip[j] != '_',
        forall|j: int| 0 <= j < fp.len() ==> #[trigger] fp[j] != '_',
{
    lemma_digit_chars(n.int_digits);
    lemma_digit_chars(n.frac_digits);
    let fd = digit_chars(n.frac_digits);
    assert forall|j: int| 0 <= j < fp.len() implies #[trigger] fp[j] != '_' by {
        if j > 0 {
            assert(fp[j] == fd[j - 1]);
        }
    }
}

proof fn lemma_signed(neg: bool, body: Seq<char>)
    requires
        body.len() > 0,
        body[0] != '-',
    ensures
        signed_number(
            if neg {
                seq!['-'] + body
            } else {
                body
            },
        ) == unsigned_number(neg, body),
{
    if neg {
        assert((seq!['-'] + body).drop_first() =~= body);
    }
}

/// The text of a canonical number denotes that number.
pub proof fn lemma_number_round_trip(n: NumberModel)
    requires
        n.wf(),
    ensures
        number_of(render_number(n)) == Some(n),
{
    let ip: Seq<char> = if n.int_digits.len() == 0 {
        seq!['0']
    } else {
        digit_chars(n.int_digits)
    };
    let fp: Seq<char> = if n.frac_digits.len() == 0 {
        Seq::empty()
    } else {
        seq!['.'] + digit_chars(n.frac_digits)
    };
    let body = ip + fp;
    let r = if n.negative {
        seq!['-'] + body
    } else {
        body
    };
    assert(render_number(n) =~= r);
    lemma_render_number_parts(n, ip, fp);
    assert forall|j: int| 0 <= j < r.len() implies #[trigger] r[j] != '_' by {
        let k = if n.negative {
            j - 1
        } else {
            j
        };
        if k >= 0 {
            assert(r[j] == body[k]);
            if k < ip.len() {
                assert(body[k] == ip[k]);
            } else {
                assert(body[k] == fp[k - ip.len()]);
            }
        }
    }
    lemma_no_separators(r);
    assert(body[0] == ip[0]);
    lemma_signed(n.negative, body);
    lemma_unsigned(n, ip, fp);
}

/// A text that the tokenizer reads as one identifier.
pub open spec fn is_ident(t: Seq<char>) -> bool {
    &&& t.len() > 0
    &&& starts_ident(t[0])
    &&& forall|i: int| 0 <= i < t.len() ==> continues_ident(#[trigger] t[i])
}

/// No two fields have the same key.
pub open spec fn keys_unique(fields: Seq<(Seq<char>, ValueModel)>) -> bool {
    forall|i: int, j: int|
        0 <= i < fields.len() && 0 <= j < fields.len() && i != j ==> #[trigger] fields[i].0
            != #[trigger] fields[j].0
}

/// A value that the grammar can produce: canonical numbers, identifiers as
/// type tags and keys, and no key twice in one object.
pub open spec fn in_grammar(v: ValueModel) -> bool
    decreases v, 0nat,
{
    match v {
        ValueModel::Number(n) => n.wf(),
        ValueModel::List(items) => items_in_grammar(items, items.len()),
        ValueModel::Tuple(items) => items_in_grammar(items, items.len()),
        ValueModel::Object { struct_type, fields } => {
            &&& match struct_type {
                Some(t) => is_ident(t),
                None => true,
            }
            &&& fields_in_grammar(fields, fields.len())
            &&& keys_unique(fields)
        },
    }
}

/// The first `n` items are in the grammar.
pub open spec fn items_in_grammar(items: Seq<ValueModel>, n: nat) -> bool
    decreases items, n,
{
    n <= items.len() && (n == 0 || (items_in_grammar(items, (n - 1) as nat) && in_grammar(
        items[n - 1],
    )))
}

/// The first `n` fields have identifiers as keys and values in the grammar.
pub open spec fn fields_in_grammar(fields: Seq<(Seq<char>, ValueModel)>, n: nat) -> bool
    decreases fields, n,
{
    n <= fields.len() && (n == 0 || (fields_in_grammar(fields, (n - 1) as nat) && is_ident(
        fields[n - 1].0,
    ) && in_grammar(fields[n - 1].1)))
}

/// The tokens of a value's canonical text.
pub open spec fn tokens_of(v: ValueModel) -> Seq<Tok>
    decreases v, 0nat,
{
    match v {
        ValueModel::Number(n) => seq![Tok::Number(render_number(n))],
        ValueModel::List(items) => seq![Tok::LeftBracket] + tokens_items(items, items.len())
            + seq![Tok::RightBracket],
        ValueModel::Tuple(items) => seq![Tok::LeftParen] + tokens_items(items, items.len())
            + seq![Tok::RightParen],
        ValueModel::Object { struct_type, fields } => (match struct_type {
            Some(t) => seq![Tok::Ident(t)],
            None => Seq::empty(),
        }) + seq![Tok::LeftBrace] + tokens_fields(fields, fields.len()) + seq![Tok::RightBrace],
    }
}

pub open spec fn tokens_items(items: Seq<ValueModel>, n: nat) -> Seq<Tok>
    decreases items, n,
{
    if n == 0 || n > items.len() {
        Seq::empty()
    } else if n == 1 {
        tokens_of(items[0])
    } else {
        tokens_items(items, (n - 1) as nat) + seq![Tok::ListSeparator] + tokens_of(items[n - 1])
    }
}

pub open spec fn tokens_fields(fields: Seq<(Seq<char>, ValueModel)>, n: nat) -> Seq<Tok>
    decreases fields, n,
{
    if n == 0 || n > fields.len() {
        Seq::empty()
    } else if n == 1 {
        seq![Tok::Ident(fields[0].0), Tok::FieldSeparator] + tokens_of(fields[0].1)
    } else {
        tokens_fields(fields, (n - 1) as nat) + seq![
            Tok::ListSeparator,
            Tok::Ident(fields[n - 1].0),
            Tok::FieldSeparator,
        ] + tokens_of(fields[n - 1].1)
    }
}

/// A character that may follow a value's text: a separator or a closing
/// bracket.
pub open spec fn may_follow(s: Seq<char>) -> bool {
    s.len() == 0 || s[0] == ',' || s[0] == ']' || s[0] == ')' || s[0] == '}'
}

proof fn lemma_lex_first(w: Seq<char>, s: Seq<char>, t: Tok)
    requires
        w.len() > 0,
        !is_space(w[0]),
        first_token(w + s) == (t, w.len()),
    ensures
        lex(w + s) == seq![t] + lex(s),
{
    let ws = w + s;
    assert(ws[0] == w[0]);
    lemma_run_len(ws, Run::Space, 0);
    assert(ws.skip(0) =~= ws);
    assert(ws.skip(w.len() as int) =~= s);
}

/// The token of a punctuation character.
pub open spec fn punct_token(c: char) -> Tok {
    if c == '{' {
        Tok::LeftBrace
    } else if c == '}' {
        Tok::RightBrace
    } else if c == '[' {
        Tok::LeftBracket
    } else if c == ']' {
        Tok::RightBracket
    } else if c == '(' {
        Tok::LeftParen
    } else if c == ')' {
        Tok::RightParen
    } else if c == ',' {
        Tok::ListSeparator
    } else {
        Tok::FieldSeparator
    }
}

proof fn lemma_lex_punct(c: char, s: Seq<char>)
    requires
        c == '{' || c == '}' || c == '[' || c == ']' || c == '(' || c == ')' || c == ','
            || c == ':',
    ensures
        lex(seq![c] + s) == seq![punct_token(c)] + lex(s),
{
    assert((seq![c] + s)[0] == c);
    lemma_lex_first(seq![c], s, punct_token(c));
}

proof fn lemma_lex_ident(w: Seq<char>, s: Seq<char>)
    requires
        is_ident(w),
        s.len() == 0 || s[0] == '{' || s[0] == ':',
    ensures
        lex(w + s) == seq![Tok::Ident(w)] + lex(s),
{
    let ws = w + s;
    assert(ws[0] == w[0]);
    let tail = ws.drop_first();
    assert forall|j: int| 0 <= j < w.len() - 1 implies in_run(#[trigger] tail[j], Run::IdentBody) by {
        assert(tail[j] == w[j + 1]);
    }
    if s.len() > 0 {
        assert(tail[w.len() - 1] == s[0]);
    }
    lemma_run_len(tail, Run::IdentBody, w.len() - 1);
    assert(ws.take(w.len() as int) =~= w);
    lemma_lex_first(w, s, Tok::Ident(w));
}

proof fn lemma_lex_number(n: NumberModel, s: Seq<char>)
    requires
        n.wf(),
        may_follow(s),
    ensures
        lex(render_number(n) + s) == seq![Tok::Number(render_number(n))] + lex(s),
{
    let w = render_number(n);
    let ip: Seq<char> = if n.int_digits.len() == 0 {
        seq!['0']
    } else {
        digit_chars(n.int_digits)
    };
    let fp: Seq<char> = if n.frac_digits.len() == 0 {
        Seq::empty()
    } else {
        seq!['.'] + digit_chars(n.frac_digits)
    };
    let sign: Seq<char> = if n.negative {
        seq!['-']
    } else {
        Seq::empty()
    };
    assert(w =~= sign + ip + fp);
    lemma_digit_chars(n.int_digits);
    lemma_digit_chars(n.frac_digits);
    let fd = digit_chars(n.frac_digits);
    assert forall|j: int| 0 <= j < w.len() implies continues_number(#[trigger] w[j]) by {
        if j < sign.len() {
        } else if j < sign.len() + ip.len() {
            assert(w[j] == ip[j - sign.len()]);
        } else {
            assert(w[j] == fp[j - sign.len() - ip.len()]);
            if j > sign.len() + ip.len() {
                assert(fp[j - sign.len() - ip.len()] == fd[j - sign.len() - ip.len() - 1]);
            }
        }
    }
    assert(w[0] == '-' || is_digit(w[0])) by {
        if !n.negative {
            assert(w[0] == ip[0]);
        }
    }
    let ws = w + s;
    assert(ws[0] == w[0]);
    let tail = ws.drop_first();
    assert forall|j: int| 0 <= j < w.len() - 1 implies in_run(#[trigger] tail[j], Run::NumberBody) by {
        assert(tail[j] == w[j + 1]);
    }
    if s.len() > 0 {
        assert(tail[w.len() - 1] == s[0]);
    }
    lemma_run_len(tail, Run::NumberBody, w.len() - 1);
    assert(ws.take(w.len() as int) =~= w);
    lemma_lex_first(w, s, Tok::Number(w));
}

#[verifier::spinoff_prover]
#[verifier::rlimit(80)]
proof fn lemma_lex_value(v: ValueModel, s: Seq<char>)
    requires
        in_grammar(v),
        may_follow(s),
    ensures
        lex(render(v) + s) == tokens_of(v) + lex(s),
    decreases v, 0nat,
{
    match v {
        ValueModel::Number(n) => {
            lemma_lex_number(n, s);
        },
        ValueModel::List(items) => {
            let r = render_items(items, items.len());
            let s1 = seq![']'] + s;
            lemma_lex_items(items, items.len(), s1);
            lemma_lex_punct(']', s);
            lemma_lex_punct('[', r + s1);
            assert(render(v) + s =~= seq!['['] + (r + s1));
            assert(tokens_of(v) + lex(s) =~= seq![Tok::LeftBracket] + (tokens_items(
                items,
                items.len(),
            ) + (seq![Tok::RightBracket] + lex(s))));
        },
        ValueModel::Tuple(items) => {
            let r = render_items(items, items.len());
            let s1 = seq![')'] + s;
            lemma_lex_items(items, items.len(), s1);
            lemma_lex_punct(')', s);
            lemma_lex_punct('(', r + s1);
            assert(render(v) + s =~= seq!['('] + (r + s1));
            assert(tokens_of(v) + lex(s) =~= seq![Tok::LeftParen] + (tokens_items(
                items,
                items.len(),
            ) + (seq![Tok::RightParen] + lex(s))));
        },
        ValueModel::Object { struct_type, fields } => {
            let r = render_fields(fields, fields.len());
            let s1 = seq!['}'] + s;
            lemma_lex_fields(fields, fields.len(), s1);
            lemma_lex_punct('}', s);
            lemma_lex_punct('{', r + s1);
            let body = seq!['{'] + (r + s1);
            let tbody = seq![Tok::LeftBrace] + (tokens_fields(fields, fields.len()) + (seq![
                Tok::RightBrace,
            ] + lex(s)));
            assert(lex(body) == tbody);
            match struct_type {
                Some(t) => {
                    lemma_lex_ident(t, body);
                    assert(render(v) + s =~= t + body);
                    assert(tokens_of(v) + lex(s) =~= seq![Tok::Ident(t)] + tbody);
                },
                None => {
                    assert(render(v) + s =~= body);
                    assert(tokens_of(v) + lex(s) =~= tbody);
                },
            }
        },
    }
}

proof fn lemma_lex_items(items: Seq<ValueModel>, n: nat, s: Seq<char>)
    requires
        items_in_grammar(items, n),
        may_follow(s),
    ensures
        lex(render_items(items, n) + s) == tokens_items(items, n) + lex(s),
    decreases items, n,
{
    if n == 0 {
        assert(render_items(items, n) + s =~= s);
        assert(tokens_items(items, n) + lex(s) =~= lex(s));
    } else if n == 1 {
        lemma_lex_value(items[0], s);
    } else {
        let last = items[n - 1];
        let s2 = seq![','] + (render(last) + s);
        lemma_lex_items(items, (n - 1) as nat, s2);
        lemma_lex_punct(',', render(last) + s);
        lemma_lex_value(last, s);
        assert(render_items(items, n) + s =~= render_items(items, (n - 1) as nat) + s2);
        assert(tokens_items(items, n) + lex(s) =~= tokens_items(items, (n - 1) as nat) + (seq![
            Tok::ListSeparator,
        ] + (tokens_of(last) + lex(s))));
    }
}

proof fn lemma_lex_fields(fields: Seq<(Seq<char>, ValueModel)>, n: nat, s: Seq<char>)
    requires
        fields_in_grammar(fields, n),
        may_follow(s),
    ensures
        lex(render_fields(fields, n) + s) == tokens_fields(fields, n) + lex(s),
    decreases fields, n,
{
    if n == 0 {
        assert(render_fields(fields, n) + s =~= s);
        assert(tokens_fields(fields, n) + lex(s) =~= lex(s));
    } else {
        let (k, v) = fields[n - 1];
        let s3 = seq![':'] + (render(v) + s);
        lemma_lex_value(v, s);
        lemma_lex_punct(':', render(v) + s);
        lemma_lex_ident(k, s3);
        let one = k + s3;
        let tone = seq![Tok::Ident(k), Tok::FieldSeparator] + tokens_of(v);
        assert(lex(one) =~= tone + lex(s));
        if n == 1 {
            assert(render_fields(fields, n) + s =~= one);
            assert(tokens_fields(fields, n) =~= tone);
        } else {
            let s2 = seq![','] + one;
            lemma_lex_fields(fields, (n - 1) as nat, s2);
            lemma_lex_punct(',', one);
            assert(render_fields(fields, n) + s =~= render_fields(fields, (n - 1) as nat) + s2);
            assert(tokens_fields(fields, n) + lex(s) =~= tokens_fields(fields, (n - 1) as nat) + (
            seq![Tok::ListSeparator] + (tone + lex(s))));
        }
    }
}

/// The tokens of the items from `j` up to `n`, read from the front.
pub open spec fn items_from(items: Seq<ValueModel>, j: nat, n: nat) -> Seq<Tok>
    decreases n - j,
{
    if j >= n {
        Seq::empty()
    } else if j + 1 == n {
        tokens_of(items[j as int])
    } else {
        tokens_of(items[j as int]) + seq![Tok::ListSeparator] + items_from(items, j + 1, n)
    }
}

/// The tokens of the fields from `j` up to `n`, read from the front.
pub open spec fn fields_from(fields: Seq<(Seq<char>, ValueModel)>, j: nat, n: nat) -> Seq<Tok>
    decreases n - j,
{
    if j >= n {
        Seq::empty()
    } else if j + 1 == n {
        field_tokens(fields[j as int])
    } else {
        field_tokens(fields[j as int]) + seq![Tok::ListSeparator] + fields_from(fields, j + 1, n)
    }
}

pub open spec fn field_tokens(f: (Seq<char>, ValueModel)) -> Seq<Tok> {
    seq![Tok::Ident(f.0), Tok::FieldSeparator] + tokens_of(f.1)
}

proof fn lemma_items_from_extend(items: Seq<ValueModel>, j: nat, n: nat)
    requires
        j < n,
    ensures
        items_from(items, j, n + 1) == items_from(items, j, n) + seq![Tok::ListSeparator]
            + tokens_of(items[n as int]),
    decreases n - j,
{
    if j + 1 < n {
        lemma_items_from_extend(items, j + 1, n);
        assert(items_from(items, j, n + 1) =~= items_from(items, j, n) + seq![Tok::ListSeparator]
            + tokens_of(items[n as int]));
    } else {
        assert(items_from(items, j + 1, n + 1) == tokens_of(items[n as int]));
    }
}

proof fn lemma_items_front(items: Seq<ValueModel>, n: nat)
    requires
        n <= items.len(),
    ensures
        tokens_items(items, n) == items_from(items, 0, n),
    decreases n,
{
    if n >= 2 {
        lemma_items_front(items, (n - 1) as nat);
        lemma_items_from_extend(items, 0, (n - 1) as nat);
    }
}

proof fn lemma_fields_from_extend(fields: Seq<(Seq<char>, ValueModel)>, j: nat, n: nat)
    requires
        j < n,
    ensures
        fields_from(fields, j, n + 1) == fields_from(fields, j, n) + seq![Tok::ListSeparator]
            + field_tokens(fields[n as int]),
    decreases n - j,
{
    if j + 1 < n {
        lemma_fields_from_extend(fields, j + 1, n);
        assert(fields_from(fields, j, n + 1) =~= fields_from(fields, j, n) + seq![
            Tok::ListSeparator,
        ] + field_tokens(fields[n as int]));
    } else {
        assert(fields_from(fields, j + 1, n + 1) == field_tokens(fields[n as int]));
    }
}

proof fn lemma_fields_front(fields: Seq<(Seq<char>, ValueModel)>, n: nat)
    requires
        n <= fields.len(),
    ensures
        tokens_fields(fields, n) == fields_from(fields, 0, n),
    decreases n,
{
    if n == 1 {
        assert(tokens_fields(fields, 1) =~= field_tokens(fields[0]));
    }
    if n >= 2 {
        lemma_fields_front(fields, (n - 1) as nat);
        lemma_fields_from_extend(fields, 0, (n - 1) as nat);
        assert(tokens_fields(fields, n) =~= tokens_fields(fields, (n - 1) as nat) + seq![
            Tok::ListSeparator,
        ] + field_tokens(fields[n - 1]));
    }
}

proof fn lemma_at(ts: Seq<Tok>, p: int, x: Seq<Tok>)
    requires
        0 <= p,
        p + x.len() <= ts.len(),
        ts.subrange(p, p + x.len()) == x,
    ensures
        forall|i: int| 0 <= i < x.len() ==> ts[p + i] == #[trigger] x[i],
{
    assert forall|i: int| 0 <= i < x.len() implies ts[p + i] == #[trigger] x[i] by {
        assert(ts.subrange(p, p + x.len())[i] == ts[p + i]);
    }
}

proof fn lemma_sub_of(ts: Seq<Tok>, p: int, x: Seq<Tok>, a: int, y: Seq<Tok>)
    requires
        0 <= p,
        0 <= a,
        p + x.len() <= ts.len(),
        ts.subrange(p, p + x.len()) == x,
        a + y.len() <= x.len(),
        x.subrange(a, a + y.len()) == y,
    ensures
        ts.subrange(p + a, p + a + y.len()) == y,
{
    lemma_at(ts, p, x);
    assert forall|i: int| 0 <= i < y.len() implies #[trigger] ts.subrange(
        p + a,
        p + a + y.len(),
    )[i] == y[i] by {
        assert(x.subrange(a, a + y.len())[i] == x[a + i]);
        assert(ts[p + (a + i)] == x[a + i]);
    }
    assert(ts.subrange(p + a, p + a + y.len()) =~= y);
}

proof fn lemma_tokens_start(v: ValueModel)
    ensures
        tokens_of(v).len() > 0,
        !(tokens_of(v)[0] is RightBracket),
        !(tokens_of(v)[0] is RightParen),
        !(tokens_of(v)[0] is RightBrace),
{
    match v {
        ValueModel::Object { struct_type, fields } => {
            match struct_type {
                Some(t) => assert(tokens_of(v)[0] == Tok::Ident(t)),
                None => assert(tokens_of(v)[0] == Tok::LeftBrace),
            }
        },
        _ => {},
    }
}

proof fn lemma_items_in_grammar(items: Seq<ValueModel>, n: nat, i: int)
    requires
        items_in_grammar(items, n),
        0 <= i < n,
    ensures
        in_grammar(items[i]),
    decreases n,
{
    if i < n - 1 {
        lemma_items_in_grammar(items, (n - 1) as nat, i);
    }
}

proof fn lemma_fields_in_grammar(fields: Seq<(Seq<char>, ValueModel)>, n: nat, i: int)
    requires
        fields_in_grammar(fields, n),
        0 <= i < n,
    ensures
        in_grammar(fields[i].1),
        is_ident(fields[i].0),
    decreases n,
{
    if i < n - 1 {
        lemma_fields_in_grammar(fields, (n - 1) as nat, i);
    }
}

proof fn lemma_key_absent(fs: Seq<(Seq<char>, ValueModel)>, k: Seq<char>)
    requires
        forall|i: int| 0 <= i < fs.len() ==> (#[trigger] fs[i]).0 != k,
    ensures
        key_index(fs, k) is None,
    decreases fs.len(),
{
    if fs.len() > 0 {
        lemma_key_absent(fs.drop_last(), k);
    }
}

proof fn lemma_parse_value(ts: Seq<Tok>, p: int, v: ValueModel)
    requires
        in_grammar(v),
        0 <= p,
        p + tokens_of(v).len() <= ts.len(),
        ts.subrange(p, p + tokens_of(v).len()) == tokens_of(v),
    ensures
        parse_value(ts, p) == Ok::<(ValueModel, int), AbabaParseError>(
            (v, p + tokens_of(v).len()),
        ),
    decreases v, 0nat,
{
    let tv = tokens_of(v);
    let e = p + tv.len();
    lemma_at(ts, p, tv);
    assert(ts[p] == tv[0]);
    match v {
        ValueModel::Number(n) => {
            lemma_number_round_trip(n);
        },
        ValueModel::List(items) => {
            let ti = tokens_items(items, items.len());
            lemma_items_front(items, items.len());
            assert(tv.subrange(1, tv.len() as int) =~= ti + seq![Tok::RightBracket]);
            lemma_sub_of(ts, p, tv, 1, ti + seq![Tok::RightBracket]);
            lemma_parse_items(ts, p + 1, true, items, 0);
            assert(items.take(0) =~= Seq::<ValueModel>::empty());
        },
        ValueModel::Tuple(items) => {
            let ti = tokens_items(items, items.len());
            lemma_items_front(items, items.len());
            assert(tv.subrange(1, tv.len() as int) =~= ti + seq![Tok::RightParen]);
            lemma_sub_of(ts, p, tv, 1, ti + seq![Tok::RightParen]);
            lemma_parse_items(ts, p + 1, false, items, 0);
            assert(items.take(0) =~= Seq::<ValueModel>::empty());
        },
        ValueModel::Object { struct_type, fields } => {
            let tf = tokens_fields(fields, fields.len());
            lemma_fields_front(fields, fields.len());
            match struct_type {
                Some(t) => {
                    assert(ts[p + 1] == tv[1]);
                    assert(tv.subrange(2, tv.len() as int) =~= tf + seq![Tok::RightBrace]);
                    lemma_sub_of(ts, p, tv, 2, tf + seq![Tok::RightBrace]);
                    lemma_parse_fields(ts, p + 2, fields, 0);
                    assert(fields.take(0) =~= Seq::<(Seq<char>, ValueModel)>::empty());
                },
                None => {
                    assert(tv.subrange(1, tv.len() as int) =~= tf + seq![Tok::RightBrace]);
                    lemma_sub_of(ts, p, tv, 1, tf + seq![Tok::RightBrace]);
                    lemma_parse_fields(ts, p + 1, fields, 0);
                    assert(fields.take(0) =~= Seq::<(Seq<char>, ValueModel)>::empty());
                },
            }
        },
    }
}

proof fn lemma_parse_items(ts: Seq<Tok>, p: int, list: bool, items: Seq<ValueModel>, j: nat)
    requires
        items_in_grammar(items, items.len()),
        j <= items.len(),
        0 <= p,
        p + items_from(items, j, items.len()).len() + 1 <= ts.len(),
        ts.subrange(p, p + items_from(items, j, items.len()).len() + 1) == items_from(
            items,
            j,
            items.len(),
        ) + seq![
            if list {
                Tok::RightBracket
            } else {
                Tok::RightParen
            },
        ],
    ensures
        parse_items(ts, p, list, items.take(j as int)) == Ok::<
            (Seq<ValueModel>, int),
            AbabaParseError,
        >((items, p + items_from(items, j, items.len()).len() + 1)),
    decreases items, items.len() - j,
{
    let n = items.len();
    let f = items_from(items, j, n);
    let close = if list {
        Tok::RightBracket
    } else {
        Tok::RightParen
    };
    let whole = f + seq![close];
    lemma_at(ts, p, whole);
    if j == n {
        assert(whole[0] == close);
        assert(ts[p] == close);
        assert(items.take(j as int) =~= items);
    } else {
        let x = items[j as int];
        let tx = tokens_of(x);
        lemma_items_in_grammar(items, n, j as int);
        assert(whole.subrange(0, tx.len() as int) =~= tx);
        lemma_sub_of(ts, p, whole, 0, tx);
        lemma_tokens_start(x);
        assert(whole[0] == tx[0]);
        lemma_parse_value(ts, p, x);
        let next = p + tx.len();
        assert(items.take(j as int).push(x) =~= items.take(j as int + 1));
        if j + 1 == n {
            assert(f == tx);
            assert(whole[tx.len() as int] == close);
            assert(ts[next] == close);
            assert(items.take(j as int + 1) =~= items);
        } else {
            let rest = items_from(items, j + 1, n);
            assert(f == tx + seq![Tok::ListSeparator] + rest);
            assert(whole[tx.len() as int] == Tok::ListSeparator);
            assert(ts[next] == Tok::ListSeparator);
            assert(whole.subrange(tx.len() as int + 1, whole.len() as int) =~= rest + seq![close]);
            lemma_sub_of(ts, p, whole, tx.len() as int + 1, rest + seq![close]);
            lemma_parse_items(ts, next + 1, list, items, j + 1);
        }
    }
}

proof fn lemma_parse_fields(ts: Seq<Tok>, p: int, fields: Seq<(Seq<char>, ValueModel)>, j: nat)
    requires
        fields_in_grammar(fields, fields.len()),
        keys_unique(fields),
        j <= fields.len(),
        0 <= p,
        p + fields_from(fields, j, fields.len()).len() + 1 <= ts.len(),
        ts.subrange(p, p + fields_from(fields, j, fields.len()).len() + 1) == fields_from(
            fields,
            j,
            fields.len(),
        ) + seq![Tok::RightBrace],
    ensures
        parse_fields(ts, p, fields.take(j as int)) == Ok::<
            (Seq<(Seq<char>, ValueModel)>, int),
            AbabaParseError,
        >((fields, p + fields_from(fields, j, fields.len()).len() + 1)),
    decreases fields, fields.len() - j,
{
    let n = fields.len();
    let f = fields_from(fields, j, n);
    let whole = f + seq![Tok::RightBrace];
    lemma_at(ts, p, whole);
    if j == n {
        assert(whole[0] == Tok::RightBrace);
        assert(ts[p] == Tok::RightBrace);
        assert(fields.take(j as int) =~= fields);
    } else {
        let (k, x) = fields[j as int];
        let fx = field_tokens(fields[j as int]);
        let tx = tokens_of(x);
        lemma_fields_in_grammar(fields, n, j as int);
        assert(whole.subrange(0, fx.len() as int) =~= fx);
        assert(whole[0] == Tok::Ident(k));
        assert(whole[1] == Tok::FieldSeparator);
        assert(ts[p] == Tok::Ident(k));
        assert(ts[p + 1] == Tok::FieldSeparator);
        assert(whole.subrange(2, 2 + tx.len() as int) =~= tx);
        lemma_sub_of(ts, p, whole, 2, tx);
        lemma_tokens_start(x);
        assert(decreases_to!(fields => fields[j as int]));
        lemma_parse_value(ts, p + 2, x);
        let next = p + 2 + tx.len();
        assert forall|i: int| 0 <= i < j implies (#[trigger] fields.take(j as int)[i]).0 != k by {
            assert(fields.take(j as int)[i] == fields[i]);
        }
        lemma_key_absent(fields.take(j as int), k);
        assert(fields.take(j as int).push((k, x)) =~= fields.take(j as int + 1));
        if j + 1 == n {
            assert(f == fx);
            assert(whole[fx.len() as int] == Tok::RightBrace);
            assert(ts[next] == Tok::RightBrace);
            assert(fields.take(j as int + 1) =~= fields);
        } else {
            let rest = fields_from(fields, j + 1, n);
            assert(f == fx + seq![Tok::ListSeparator] + rest);
            assert(whole[fx.len() as int] == Tok::ListSeparator);
            assert(ts[next] == Tok::ListSeparator);
            assert(whole.subrange(fx.len() as int + 1, whole.len() as int) =~= rest + seq![
                Tok::RightBrace,
            ]);
            lemma_sub_of(ts, p, whole, fx.len() as int + 1, rest + seq![Tok::RightBrace]);
            lemma_parse_fields(ts, next + 1, fields, j + 1);
        }
    }
}

/// Rendering a value that the grammar can produce and parsing the text
/// again gives the same value.
pub proof fn law_parse_render(v: ValueModel)
    requires
        in_grammar(v),
    ensures
        parse_text(render(v)) == Ok::<ValueModel, AbabaParseError>(v),
{
    let e = Seq::<char>::empty();
    lemma_lex_value(v, e);
    assert(render(v) + e =~= render(v));
    assert(lex(e) =~= Seq::<Tok>::empty());
    let ts = tokens_of(v);
    assert(ts + lex(e) =~= ts);
    assert(ts.subrange(0, ts.len() as int) =~= ts);
    lemma_parse_value(ts, 0, v);
}

} // verus!
