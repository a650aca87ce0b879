//! Splitting text into tokens.
use vstd::prelude::*;

use crate::chars::{
    chars_of, continues_ident, continues_number, is_digit, is_ident_char, is_ident_start, is_number_char,
    is_number_start, is_space, is_whitespace, starts_ident, starts_number,
};

verus! {

/// One lexical unit. Identifiers and numbers carry their text as it stands in
/// the source.
#[derive(Debug, Clone, PartialEq, Eq)]
pub enum AbabaToken {
    LeftBrace,
    RightBrace,
    LeftBracket,
    RightBracket,
    LeftParen,
    RightParen,
    ListSeparator,
    FieldSeparator,
    Ident(Vec<char>),
    Number(Vec<char>),
    UnknownChar(char),
}

/// The mathematical content of a token.
pub enum Tok {
    LeftBrace,
    RightBrace,
    LeftBracket,
    RightBracket,
    LeftParen,
    RightParen,
    ListSeparator,
    FieldSeparator,
    Ident(Seq<char>),
    Number(Seq<char>),
    UnknownChar(char),
}

impl View for AbabaToken {
    type V = Tok;

    open spec fn view(&self) -> Tok {
        match self {
            AbabaToken::LeftBrace => Tok::LeftBrace,
            AbabaToken::RightBrace => Tok::RightBrace,
            AbabaToken::LeftBracket => Tok::LeftBracket,
            AbabaToken::RightBracket => Tok::RightBracket,
            AbabaToken::LeftParen => Tok::LeftParen,
            AbabaToken::RightParen => Tok::RightParen,
            AbabaToken::ListSeparator => Tok::ListSeparator,
            AbabaToken::FieldSeparator => Tok::FieldSeparator,
            AbabaToken::Ident(s) => Tok::Ident(s@),
            AbabaToken::Number(s) => Tok::Number(s@),
            AbabaToken::UnknownChar(c) => Tok::UnknownChar(*c),
        }
    }
}

/// The source text that a token stands for.
pub open spec fn raw(t: Tok) -> Seq<char> {
    match t {
        Tok::LeftBrace => seq!['{'],
        Tok::RightBrace => seq!['}'],
        Tok::LeftBracket => seq!['['],
        Tok::RightBracket => seq![']'],
        Tok::LeftParen => seq!['('],
        Tok::RightParen => seq![')'],
        Tok::ListSeparator => seq![','],
        Tok::FieldSeparator => seq![':'],
        Tok::Ident(s) => s,
        Tok::Number(s) => s,
        Tok::UnknownChar(c) => seq![c],
    }
}

/// Classes of characters that are read in runs.
#[derive(Clone, Copy)]
pub enum Run {
    Space,
    NumberBody,
    IdentBody,
    Digit,
    Zero,
}

pub open spec fn in_run(c: char, k: Run) -> bool {
    match k {
        Run::Space => is_space(c),
        Run::NumberBody => continues_number(c),
        Run::IdentBody => continues_ident(c),
        Run::Digit => is_digit(c),
        Run::Zero => c == '0',
    }
}

/// The length of the longest prefix of `s` whose characters are all of kind `k`.
pub open spec fn run_len(s: Seq<char>, k: Run) -> nat
    decreases s.len(),
{
    if s.len() > 0 && in_run(s[0], k) {
        1 + run_len(s.drop_first(), k)
    } else {
        0
    }
}

/// The token that `s` begins with (no leading whitespace), and its length.
pub open spec fn first_token(s: Seq<char>) -> (Tok, nat)
    recommends
        s.len() > 0,
{
    let c = s[0];
    if c == '{' {
        (Tok::LeftBrace, 1)
    } else if c == '}' {
        (Tok::RightBrace, 1)
    } else if c == '[' {
        (Tok::LeftBracket, 1)
    } else if c == ']' {
        (Tok::RightBracket, 1)
    } else if c == '(' {
        (Tok::LeftParen, 1)
    } else if c == ')' {
        (Tok::RightParen, 1)
    } else if c == ',' {
        (Tok::ListSeparator, 1)
    } else if c == ':' {
        (Tok::FieldSeparator, 1)
    } else if starts_number(c) {
        let n = 1 + run_len(s.drop_first(), Run::NumberBody);
        (Tok::Number(s.take(n as int)), n)
    } else if starts_ident(c) {
        let n = 1 + run_len(s.drop_first(), Run::IdentBody);
        (Tok::Ident(s.take(n as int)), n)
    } else {
        (Tok::UnknownChar(c), 1)
    }
}

/// One step of the tokenizer on the remaining input `s`: the token emitted,
/// if any, and the input left after it.
pub open spec fn step(s: Seq<char>) -> (Option<Tok>, Seq<char>) {
    let t = s.skip(run_len(s, Run::Space) as int);
    if t.len() == 0 {
        (None, t)
    } else {
        let (tok, n) = first_token(t);
        (Some(tok), t.skip(n as int))
    }
}

/// The whole token sequence of `s`.
pub open spec fn lex(s: Seq<char>) -> Seq<Tok>
    decreases s.len(),
{
    let (tok, rest) = step(s);
    match tok {
        None => Seq::empty(),
        Some(t) => if rest.len() < s.len() {
            seq![t] + lex(rest)
        } else {
            Seq::empty()
        },
    }
}

/// The characters of `s` that are not whitespace, in order.
pub open spec fn strip_space(s: Seq<char>) -> Seq<char> {
    s.filter(|c: char| !is_space(c))
}

/// All raw token texts, joined in order.
pub open spec fn join_raw(ts: Seq<Tok>) -> Seq<char>
    decreases ts.len(),
{
    if ts.len() == 0 {
        Seq::empty()
    } else {
        raw(ts[0]) + join_raw(ts.drop_first())
    }
}

pub proof fn lemma_run_len(s: Seq<char>, k: Run, i: int)
    requires
        0 <= i <= s.len(),
        forall|j: int| 0 <= j < i ==> in_run(#[trigger] s[j], k),
        i == s.len() || !in_run(s[i], k),
    ensures
        run_len(s, k) == i,
    decreases i,
{
    if i > 0 {
        lemma_run_len(s.drop_first(), k, i - 1);
    }
}

pub proof fn lemma_run_bound(s: Seq<char>, k: Run)
    ensures
        run_len(s, k) <= s.len(),
        forall|j: int| 0 <= j < run_len(s, k) ==> in_run(#[trigger] s[j], k),
        run_len(s, k) < s.len() ==> !in_run(s[run_len(s, k) as int], k),
    decreases s.len(),
{
    if s.len() > 0 && in_run(s[0], k) {
        lemma_run_bound(s.drop_first(), k);
        assert(run_len(s, k) < s.len() ==> s[run_len(s, k) as int] == s.drop_first()[run_len(
            s.drop_first(),
            k,
        ) as int]);
        assert forall|j: int| 0 <= j < run_len(s, k) implies in_run(#[trigger] s[j], k) by {
            if j > 0 {
                assert(s[j] == s.drop_first()[j - 1]);
            }
        }
    }
}

fn char_in_run(c: char, k: Run) -> (r: bool)
    ensures
        r == in_run(c, k),
{
    match k {
        Run::Space => is_whitespace(c),
        Run::NumberBody => is_number_char(c),
        Run::IdentBody => is_ident_char(c),
        Run::Digit => '0' <= c && c <= '9',
        Run::Zero => c == '0',
    }
}

proof fn lemma_strip_all_space(s: Seq<char>)
    requires
        forall|j: int| 0 <= j < s.len() ==> is_space(#[trigger] s[j]),
    ensures
        strip_space(s) == Seq::<char>::empty(),
    decreases s.len(),
{
    reveal_with_fuel(Seq::filter, 1);
    if s.len() > 0 {
        lemma_strip_all_space(s.drop_last());
    }
    assert(strip_space(s) =~= Seq::<char>::empty());
}

proof fn lemma_strip_no_space(s: Seq<char>)
    requires
        forall|j: int| 0 <= j < s.len() ==> !is_space(#[trigger] s[j]),
    ensures
        strip_space(s) == s,
    decreases s.len(),
{
    reveal_with_fuel(Seq::filter, 1);
    if s.len() > 0 {
        lemma_strip_no_space(s.drop_last());
        assert(s.drop_last().push(s.last()) =~= s);
    }
    assert(strip_space(s) =~= s);
}

/// A token's text holds no whitespace, and the tokenizer moves on by exactly
/// that text.
proof fn lemma_first_token(t: Seq<char>)
    requires
        t.len() > 0,
        !is_space(t[0]),
    ensures
        1 <= first_token(t).1 <= t.len(),
        raw(first_token(t).0) == t.take(first_token(t).1 as int),
        forall|j: int|
            0 <= j < first_token(t).1 ==> !is_space(#[trigger] raw(first_token(t).0)[j]),
{
    lemma_run_bound(t.drop_first(), Run::NumberBody);
    lemma_run_bound(t.drop_first(), Run::IdentBody);
    let (tok, n) = first_token(t);
    assert(raw(tok) =~= t.take(n as int));
    assert forall|j: int| 0 <= j < n implies !is_space(#[trigger] raw(tok)[j]) by {
        if j > 0 {
            assert(raw(tok)[j] == t.drop_first()[j - 1]);
        }
    }
}

/// A step that emits a token consumes at least one character.
pub proof fn lemma_step_shrinks(s: Seq<char>)
    ensures
        step(s).0 is Some ==> step(s).1.len() < s.len() && lex(s) == seq![step(s).0->0] + lex(
            step(s).1,
        ),
        step(s).0 is None ==> lex(s) == Seq::<Tok>::empty(),
{
    lemma_run_bound(s, Run::Space);
    let t = s.skip(run_len(s, Run::Space) as int);
    if t.len() > 0 {
        lemma_first_token(t);
    }
}

/// Input made of whitespace alone yields no token.
pub proof fn law_space_only_input(s: Seq<char>)
    requires
        forall|j: int| 0 <= j < s.len() ==> is_space(#[trigger] s[j]),
    ensures
        lex(s) == Seq::<Tok>::empty(),
{
    lemma_run_len(s, Run::Space, s.len() as int);
    assert(s.skip(s.len() as int).len() == 0);
}

/// Joining the text of every token, in order, gives the input with its
/// whitespace removed.
pub proof fn law_tokens_cover_input(s: Seq<char>)
    ensures
        join_raw(lex(s)) == strip_space(s),
    decreases s.len(),
{
    let w = run_len(s, Run::Space) as int;
    lemma_run_bound(s, Run::Space);
    let t = s.skip(w);
    assert(s =~= s.take(w) + t);
    lemma_strip_all_space(s.take(w));
    Seq::filter_distributes_over_add(s.take(w), t, |c: char| !is_space(c));
    if t.len() == 0 {
        assert(lex(s) =~= Seq::<Tok>::empty());
    } else {
        let (tok, n) = first_token(t);
        lemma_first_token(t);
        let rest = t.skip(n as int);
        assert(t =~= raw(tok) + rest);
        lemma_strip_no_space(raw(tok));
        Seq::filter_distributes_over_add(raw(tok), rest, |c: char| !is_space(c));
        law_tokens_cover_input(rest);
        assert(lex(s) == seq![tok] + lex(rest));
        assert((seq![tok] + lex(rest)).drop_first() =~= lex(rest));
    }
}

/// The end of the run of kind `k` in `chars` that starts at `from`.
pub fn run_end(chars: &Vec<char>, from: usize, k: Run) -> (r: usize)
    requires
        from <= chars@.len(),
    ensures
        from <= r <= chars@.len(),
        r - from == run_len(chars@.skip(from as int), k),
{
    let mut i = from;
    while i < chars.len() && char_in_run(chars[i], k)
        invariant
            from <= i <= chars@.len(),
            forall|j: int| from <= j < i ==> in_run(#[trigger] chars@[j], k),
        decreases chars@.len() - i,
    {
        i = i + 1;
    }
    let ghost s = chars@.skip(from as int);
    proof {
        assert forall|j: int| 0 <= j < i - from implies in_run(#[trigger] s[j], k) by {
            assert(s[j] == chars@[from + j]);
        }
        lemma_run_len(s, k, i - from);
    }
    i
}

/// The characters of `chars` from `from` up to `to`.
pub fn slice_chars(chars: &Vec<char>, from: usize, to: usize) -> (r: Vec<char>)
    requires
        from <= to <= chars@.len(),
    ensures
        r@ == chars@.subrange(from as int, to as int),
{
    let mut r: Vec<char> = Vec::new();
    let mut i = from;
    while i < to
        invariant
            from <= i <= to <= chars@.len(),
            r@ == chars@.subrange(from as int, i as int),
        decreases to - i,
    {
        r.push(chars[i]);
        i = i + 1;
        assert(r@ =~= chars@.subrange(from as int, i as int));
    }
    r
}

pub open spec fn token_option(t: Option<AbabaToken>) -> Option<Tok> {
    match t {
        Some(t) => Some(t@),
        None => None,
    }
}

/// The tokenizer: a single pass over the characters of its input.
pub struct AbabaTokenizer {
    chars: Vec<char>,
    pos: usize,
}

impl View for AbabaTokenizer {
    type V = Seq<char>;

    /// The input that is still to be read.
    closed spec fn view(&self) -> Seq<char> {
        self.chars@.skip(self.pos as int)
    }
}

impl AbabaTokenizer {
    pub closed spec fn wf(&self) -> bool {
        self.pos <= self.chars@.len()
    }

    pub fn new(s: &str) -> (r: Self)
        ensures
            r.wf(),
            r@ == s@,
    {
        let chars = chars_of(s);
        let r = AbabaTokenizer { chars, pos: 0 };
        assert(r@ =~= s@);
        r
    }

    /// The token at the head of the remaining input, and the position after it.
    fn scan(&self) -> (r: (Option<AbabaToken>, usize))
        requires
            self.wf(),
        ensures
            r.1 <= self.chars@.len(),
            token_option(r.0) == step(self@).0,
            self.chars@.skip(r.1 as int) == step(self@).1,
    {
        let ghost s = self@;
        let n = self.chars.len();
        let start = run_end(&self.chars, self.pos, Run::Space);
        proof {
            assert(s.skip(run_len(s, Run::Space) as int) =~= self.chars@.skip(start as int));
        }
        if start == n {
            return (None, start);
        }
        let ghost t = self.chars@.skip(start as int);
        let c = self.chars[start];
        assert(t[0] == c);
        let tok = if c == '{' {
            AbabaToken::LeftBrace
        } else if c == '}' {
            AbabaToken::RightBrace
        } else if c == '[' {
            AbabaToken::LeftBracket
        } else if c == ']' {
            AbabaToken::RightBracket
        } else if c == '(' {
            AbabaToken::LeftParen
        } else if c == ')' {
            AbabaToken::RightParen
        } else if c == ',' {
            AbabaToken::ListSeparator
        } else if c == ':' {
            AbabaToken::FieldSeparator
        } else if is_number_start(c) {
            let end = run_end(&self.chars, start + 1, Run::NumberBody);
            proof {
                assert(t.drop_first() =~= self.chars@.skip(start + 1));
            }
            let text = slice_chars(&self.chars, start, end);
            assert(text@ =~= t.take(end - start));
            return (Some(AbabaToken::Number(text)), end);
        } else if is_ident_start(c) {
            let end = run_end(&self.chars, start + 1, Run::IdentBody);
            proof {
                assert(t.drop_first() =~= self.chars@.skip(start + 1));
            }
            let text = slice_chars(&self.chars, start, end);
            assert(text@ =~= t.take(end - start));
            return (Some(AbabaToken::Ident(text)), end);
        } else {
            AbabaToken::UnknownChar(c)
        };
        (Some(tok), start + 1)
    }

    /// The next token, skipping whitespace before it; `None` at the end of
    /// the input.
    pub fn next(&mut self) -> (r: Option<AbabaToken>)
        requires
            old(self).wf(),
        ensures
            final(self).wf(),
            token_option(r) == step(old(self)@).0,
            final(self)@ == step(old(self)@).1,
    {
        let (tok, pos) = self.scan();
        self.pos = pos;
        tok
    }

    /// The token that `next` would return, leaving the input as it is.
    pub fn peek(&self) -> (r: Option<AbabaToken>)
        requires
            self.wf(),
        ensures
            token_option(r) == step(self@).0,
    {
        self.scan().0
    }
}

} // verus!
