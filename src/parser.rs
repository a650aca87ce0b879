//! A recursive-descent parser for the grammar
//!
//! ```text
//! value       ::= list | tuple | object | number
//! list        ::= '[' items ']'
//! tuple       ::= '(' items ')'
//! items       ::= value items-cont | ε
//! items-cont  ::= ',' items | ε
//! object      ::= [ident] '{' fields '}'
//! fields      ::= ident ':' value fields-cont | ε
//! fields-cont ::= ',' fields | ε
//! ```
//!
//! A field written twice keeps the value written last, at the place where
//! the key was first written.
use vstd::prelude::*;

use crate::number::{number_of, AbabaNumber};
use crate::tokenizer::{lex, step, AbabaToken, AbabaTokenizer, Tok};
use crate::value::{
    field_models, lemma_model_of, models, text_option, AbabaParseError, AbabaValue, ValueModel,
};

verus! {

/// The index of the field with key `k`, if there is one.
pub open spec fn key_index(fs: Seq<(Seq<char>, ValueModel)>, k: Seq<char>) -> Option<int>
    decreases fs.len(),
{
    if fs.len() == 0 {
        None
    } else if fs.last().0 == k {
        Some(fs.len() - 1)
    } else {
        key_index(fs.drop_last(), k)
    }
}

/// The fields `fs` with `k` set to `v`: in place where `k` is present,
/// appended where it is not.
pub open spec fn set_field(fs: Seq<(Seq<char>, ValueModel)>, k: Seq<char>, v: ValueModel) -> Seq<
    (Seq<char>, ValueModel),
> {
    match key_index(fs, k) {
        Some(i) => fs.update(i, (k, v)),
        None => fs.push((k, v)),
    }
}

/// The token that closes a list (`]`) or a tuple (`)`).
pub open spec fn closes(t: Tok, list: bool) -> bool {
    if list {
        t is RightBracket
    } else {
        t is RightParen
    }
}

pub open spec fn close_char(list: bool) -> char {
    if list {
        ']'
    } else {
        ')'
    }
}

/// The value that starts at token `pos`, and the position after it.
pub open spec fn parse_value(ts: Seq<Tok>, pos: int) -> Result<(ValueModel, int), AbabaParseError>
    decreases ts.len() - pos, 0int,
{
    if pos < 0 || pos >= ts.len() {
        Err(AbabaParseError::NoContent)
    } else {
        match ts[pos] {
            Tok::LeftBracket => match parse_items(ts, pos + 1, true, Seq::empty()) {
                Ok((items, next)) => Ok((ValueModel::List(items), next)),
                Err(e) => Err(e),
            },
            Tok::LeftParen => match parse_items(ts, pos + 1, false, Seq::empty()) {
                Ok((items, next)) => Ok((ValueModel::Tuple(items), next)),
                Err(e) => Err(e),
            },
            Tok::LeftBrace => match parse_fields(ts, pos + 1, Seq::empty()) {
                Ok((fields, next)) => Ok((ValueModel::Object { struct_type: None, fields }, next)),
                Err(e) => Err(e),
            },
            Tok::Ident(name) => if pos + 1 < ts.len() && ts[pos + 1] is LeftBrace {
                match parse_fields(ts, pos + 2, Seq::empty()) {
                    Ok((fields, next)) => Ok(
                        (ValueModel::Object { struct_type: Some(name), fields }, next),
                    ),
                    Err(e) => Err(e),
                }
            } else {
                Err(AbabaParseError::UnexpectedToken { position: pos as usize })
            },
            Tok::Number(raw) => match number_of(raw) {
                Some(n) => Ok((ValueModel::Number(n), pos + 1)),
                None => Err(AbabaParseError::MalformedNumber { position: pos as usize }),
            },
            _ => Err(AbabaParseError::UnexpectedToken { position: pos as usize }),
        }
    }
}

/// The items of a list or tuple from token `pos` on, after the items `acc`
/// already read, and the position after the closing token.
pub open spec fn parse_items(ts: Seq<Tok>, pos: int, list: bool, acc: Seq<ValueModel>) -> Result<
    (Seq<ValueModel>, int),
    AbabaParseError,
>
    decreases ts.len() - pos, 1int,
{
    if pos < 0 || pos >= ts.len() {
        Err(AbabaParseError::MissingEndBrace { brace: close_char(list) })
    } else if closes(ts[pos], list) {
        Ok((acc, pos + 1))
    } else {
        match parse_value(ts, pos) {
            Err(e) => Err(e),
            Ok((v, next)) => if next <= pos {
                Err(AbabaParseError::NoContent)
            } else if next >= ts.len() {
                Err(AbabaParseError::MissingEndBrace { brace: close_char(list) })
            } else if ts[next] is ListSeparator {
                parse_items(ts, next + 1, list, acc.push(v))
            } else if closes(ts[next], list) {
                Ok((acc.push(v), next + 1))
            } else {
                Err(AbabaParseError::UnexpectedToken { position: next as usize })
            },
        }
    }
}

/// The fields of an object from token `pos` on, after the fields `acc`
/// already read, and the position after the closing brace.
pub open spec fn parse_fields(ts: Seq<Tok>, pos: int, acc: Seq<(Seq<char>, ValueModel)>) -> Result<
    (Seq<(Seq<char>, ValueModel)>, int),
    AbabaParseError,
>
    decreases ts.len() - pos, 1int,
{
    if pos < 0 || pos >= ts.len() {
        Err(AbabaParseError::MissingEndBrace { brace: '}' })
    } else {
        match ts[pos] {
            Tok::RightBrace => Ok((acc, pos + 1)),
            Tok::Ident(k) => if pos + 1 >= ts.len() {
                Err(AbabaParseError::MissingEndBrace { brace: '}' })
            } else if !(ts[pos + 1] is FieldSeparator) {
                Err(AbabaParseError::UnexpectedToken { position: (pos + 1) as usize })
            } else {
                match parse_value(ts, pos + 2) {
                    Err(e) => Err(e),
                    Ok((v, next)) => if next <= pos {
                        Err(AbabaParseError::NoContent)
                    } else if next >= ts.len() {
                        Err(AbabaParseError::MissingEndBrace { brace: '}' })
                    } else if ts[next] is ListSeparator {
                        parse_fields(ts, next + 1, set_field(acc, k, v))
                    } else if ts[next] is RightBrace {
                        Ok((set_field(acc, k, v), next + 1))
                    } else {
                        Err(AbabaParseError::UnexpectedToken { position: next as usize })
                    },
                }
            },
            _ => Err(AbabaParseError::UnexpectedToken { position: pos as usize }),
        }
    }
}

/// The value that the token sequence `ts` makes up, with no token left over.
pub open spec fn parse_tokens(ts: Seq<Tok>) -> Result<ValueModel, AbabaParseError> {
    match parse_value(ts, 0) {
        Ok((v, next)) => if next < ts.len() {
            Err(AbabaParseError::UnexpectedToken { position: next as usize })
        } else {
            Ok(v)
        },
        Err(e) => Err(e),
    }
}

/// The value that the text `s` denotes.
pub open spec fn parse_text(s: Seq<char>) -> Result<ValueModel, AbabaParseError> {
    parse_tokens(lex(s))
}

pub open spec fn token_models(ts: Seq<AbabaToken>) -> Seq<Tok> {
    ts.map_values(|t: AbabaToken| t@)
}

/// Whether two texts are equal.
pub fn same_text(a: &Vec<char>, b: &Vec<char>) -> (r: bool)
    ensures
        r == (a@ == b@),
{
    if a.len() != b.len() {
        return false;
    }
    let mut i: usize = 0;
    while i < a.len()
        invariant
            a@.len() == b@.len(),
            i <= a@.len(),
            forall|j: int| 0 <= j < i ==> a@[j] == b@[j],
        decreases a@.len() - i,
    {
        if a[i] != b[i] {
            return false;
        }
        i = i + 1;
    }
    assert(a@ =~= b@);
    true
}

/// Sets the field `key` of `fields` to `v`.
fn set_field_in(fields: &mut Vec<(Vec<char>, AbabaValue)>, key: Vec<char>, v: AbabaValue)
    ensures
        field_models(final(fields)@) == set_field(field_models(old(fields)@), key@, v@),
{
    let ghost fm = field_models(fields@);
    let mut i = fields.len();
    assert(fm.take(i as int) =~= fm);
    while i > 0 && !same_text(&fields[i - 1].0, &key)
        invariant
            i <= fields@.len(),
            fm == field_models(fields@),
            key_index(fm, key@) == key_index(fm.take(i as int), key@),
        decreases i,
    {
        assert(fm.take(i as int).drop_last() =~= fm.take(i - 1));
        i = i - 1;
    }
    if i > 0 {
        assert(fm.take(i as int).last() == fm[i - 1]);
        fields.set(i - 1, (key, v));
        assert(field_models(fields@) =~= fm.update(i - 1, (key@, v@)));
    } else {
        fields.push((key, v));
        assert(field_models(fields@) =~= fm.push((key@, v@)));
    }
}

/// A parser over the tokens of one text.
pub struct AbabaParser {
    tokens: Vec<AbabaToken>,
}

impl View for AbabaParser {
    type V = Seq<Tok>;

    /// The tokens to be parsed.
    closed spec fn view(&self) -> Seq<Tok> {
        token_models(self.tokens@)
    }
}

impl AbabaParser {
    pub fn new(s: &str) -> (r: Self)
        ensures
            r@ == lex(s@),
    {
        let mut tokenizer = AbabaTokenizer::new(s);
        let mut tokens: Vec<AbabaToken> = Vec::new();
        loop
            invariant
                tokenizer.wf(),
                token_models(tokens@) + lex(tokenizer@) == lex(s@),
            ensures
                token_models(tokens@) == lex(s@),
            decreases tokenizer@.len(),
        {
            let ghost before = tokenizer@;
            match tokenizer.next() {
                None => {
                    proof {
                        crate::tokenizer::lemma_step_shrinks(before);
                    }
                    assert(token_models(tokens@) =~= lex(s@));
                    break;
                },
                Some(t) => {
                    proof {
                        crate::tokenizer::lemma_step_shrinks(before);
                    }
                    let ghost m = token_models(tokens@);
                    tokens.push(t);
                    assert(token_models(tokens@) =~= m.push(t@));
                    assert(m.push(t@) + lex(tokenizer@) =~= m + (seq![t@] + lex(tokenizer@)));
                },
            }
        }
        AbabaParser { tokens }
    }

    fn closes_at(&self, pos: usize, list: bool) -> (r: bool)
        requires
            pos < self.tokens@.len(),
        ensures
            r == closes(self@[pos as int], list),
    {
        match &self.tokens[pos] {
            AbabaToken::RightBracket => list,
            AbabaToken::RightParen => !list,
            _ => false,
        }
    }

    fn value_at(&self, pos: usize) -> (r: Result<(AbabaValue, usize), AbabaParseError>)
        requires
            pos <= self.tokens@.len(),
        ensures
            match r {
                Ok((v, next)) => pos < next <= self.tokens@.len() && parse_value(self@, pos as int)
                    == Ok::<(ValueModel, int), AbabaParseError>((v@, next as int)),
                Err(e) => parse_value(self@, pos as int) == Err::<(ValueModel, int), _>(e),
            },
        decreases self.tokens@.len() - pos, 0int,
    {
        if pos >= self.tokens.len() {
            return Err(AbabaParseError::NoContent);
        }
        assert(self@[pos as int] == self.tokens@[pos as int]@);
        assert(models(Seq::<AbabaValue>::empty()) =~= Seq::<ValueModel>::empty());
        assert(field_models(Seq::<(Vec<char>, AbabaValue)>::empty())
            =~= Seq::<(Seq<char>, ValueModel)>::empty());
        let r = match &self.tokens[pos] {
            AbabaToken::LeftBracket => match self.items_from(pos + 1, true, Vec::new()) {
                Ok((items, next)) => Ok((AbabaValue::List(items), next)),
                Err(e) => Err(e),
            },
            AbabaToken::LeftParen => match self.items_from(pos + 1, false, Vec::new()) {
                Ok((items, next)) => Ok((AbabaValue::Tuple(items), next)),
                Err(e) => Err(e),
            },
            AbabaToken::LeftBrace => match self.fields_from(pos + 1, Vec::new()) {
                Ok((fields, next)) => Ok((AbabaValue::Object { struct_type: None, fields }, next)),
                Err(e) => Err(e),
            },
            AbabaToken::Ident(name) => {
                proof {
                    if pos + 1 < self.tokens@.len() {
                        assert(self@[pos + 1] == self.tokens@[pos + 1]@);
                    }
                }
                if pos + 1 < self.tokens.len() && matches!(self.tokens[pos + 1], AbabaToken::LeftBrace) {
                    match self.fields_from(pos + 2, Vec::new()) {
                        Ok((fields, next)) => Ok(
                            (AbabaValue::Object { struct_type: Some(name.clone()), fields }, next),
                        ),
                        Err(e) => Err(e),
                    }
                } else {
                    Err(AbabaParseError::UnexpectedToken { position: pos })
                }
            },
            AbabaToken::Number(raw) => match AbabaNumber::from_text(raw) {
                Some(n) => Ok((AbabaValue::Number(n), pos + 1)),
                None => Err(AbabaParseError::MalformedNumber { position: pos }),
            },
            _ => Err(AbabaParseError::UnexpectedToken { position: pos }),
        };
        proof {
            if r is Ok {
                lemma_model_of(r->Ok_0.0);
            }
        }
        r
    }

    fn items_from(&self, pos: usize, list: bool, acc: Vec<AbabaValue>) -> (r: Result<
        (Vec<AbabaValue>, usize),
        AbabaParseError,
    >)
        requires
            pos <= self.tokens@.len(),
        ensures
            match r {
                Ok((items, next)) => pos < next <= self.tokens@.len() && parse_items(
                    self@,
                    pos as int,
                    list,
                    models(acc@),
                ) == Ok::<(Seq<ValueModel>, int), AbabaParseError>((models(items@), next as int)),
                Err(e) => parse_items(self@, pos as int, list, models(acc@)) == Err::<
                    (Seq<ValueModel>, int),
                    _,
                >(e),
            },
        decreases self.tokens@.len() - pos, 1int,
    {
        if pos >= self.tokens.len() {
            return Err(AbabaParseError::MissingEndBrace { brace: if list { ']' } else { ')' } });
        }
        if self.closes_at(pos, list) {
            return Ok((acc, pos + 1));
        }
        match self.value_at(pos) {
            Err(e) => Err(e),
            Ok((v, next)) => {
                let mut acc = acc;
                let ghost m = models(acc@);
                let ghost vm = v@;
                acc.push(v);
                assert(models(acc@) =~= m.push(vm));
                if next >= self.tokens.len() {
                    Err(AbabaParseError::MissingEndBrace { brace: if list { ']' } else { ')' } })
                } else if matches!(self.tokens[next], AbabaToken::ListSeparator) {
                    self.items_from(next + 1, list, acc)
                } else if self.closes_at(next, list) {
                    Ok((acc, next + 1))
                } else {
                    Err(AbabaParseError::UnexpectedToken { position: next })
                }
            },
        }
    }

    fn fields_from(&self, pos: usize, acc: Vec<(Vec<char>, AbabaValue)>) -> (r: Result<
        (Vec<(Vec<char>, AbabaValue)>, usize),
        AbabaParseError,
    >)
        requires
            pos <= self.tokens@.len(),
        ensures
            match r {
                Ok((fields, next)) => pos < next <= self.tokens@.len() && parse_fields(
                    self@,
                    pos as int,
                    field_models(acc@),
                ) == Ok::<(Seq<(Seq<char>, ValueModel)>, int), AbabaParseError>(
                    (field_models(fields@), next as int),
                ),
                Err(e) => parse_fields(self@, pos as int, field_models(acc@)) == Err::<
                    (Seq<(Seq<char>, ValueModel)>, int),
                    _,
                >(e),
            },
        decreases self.tokens@.len() - pos, 1int,
    {
        if pos >= self.tokens.len() {
            return Err(AbabaParseError::MissingEndBrace { brace: '}' });
        }
        match &self.tokens[pos] {
            AbabaToken::RightBrace => Ok((acc, pos + 1)),
            AbabaToken::Ident(k) => {
                if pos + 1 >= self.tokens.len() {
                    return Err(AbabaParseError::MissingEndBrace { brace: '}' });
                }
                if !matches!(self.tokens[pos + 1], AbabaToken::FieldSeparator) {
                    return Err(AbabaParseError::UnexpectedToken { position: pos + 1 });
                }
                match self.value_at(pos + 2) {
                    Err(e) => Err(e),
                    Ok((v, next)) => {
                        let mut acc = acc;
                        set_field_in(&mut acc, k.clone(), v);
                        if next >= self.tokens.len() {
                            Err(AbabaParseError::MissingEndBrace { brace: '}' })
                        } else if matches!(self.tokens[next], AbabaToken::ListSeparator) {
                            self.fields_from(next + 1, acc)
                        } else if matches!(self.tokens[next], AbabaToken::RightBrace) {
                            Ok((acc, next + 1))
                        } else {
                            Err(AbabaParseError::UnexpectedToken { position: next })
                        }
                    },
                }
            },
            _ => Err(AbabaParseError::UnexpectedToken { position: pos }),
        }
    }

    /// Parses the whole text: one value and nothing after it.
    pub fn parse(self) -> (r: Result<AbabaValue, AbabaParseError>)
        ensures
            match r {
                Ok(v) => parse_tokens(self@) == Ok::<ValueModel, AbabaParseError>(v@),
                Err(e) => parse_tokens(self@) == Err::<ValueModel, _>(e),
            },
    {
        match self.value_at(0) {
            Ok((v, next)) => if next < self.tokens.len() {
                Err(AbabaParseError::UnexpectedToken { position: next })
            } else {
                Ok(v)
            },
            Err(e) => Err(e),
        }
    }
}

impl AbabaValue {
    /// The value that the text `s` denotes.
    pub fn from_text(s: &str) -> (r: Result<AbabaValue, AbabaParseError>)
        ensures
            match r {
                Ok(v) => parse_text(s@) == Ok::<ValueModel, AbabaParseError>(v@),
                Err(e) => parse_text(s@) == Err::<ValueModel, _>(e),
            },
    {
        AbabaParser::new(s).parse()
    }
}

} // verus!
