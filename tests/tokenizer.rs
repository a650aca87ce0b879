use ababa_config::AbabaToken::{
    FieldSeparator, Ident, LeftBrace, LeftBracket, LeftParen, ListSeparator, Number, RightBrace,
    RightBracket, RightParen, UnknownChar,
};
use ababa_config::{AbabaToken, AbabaTokenizer};

fn text(s: &str) -> Vec<char> {
    s.chars().collect()
}

fn all_tokens(s: &str) -> Vec<AbabaToken> {
    let mut tok = AbabaTokenizer::new(s);
    let mut out = Vec::new();
    while let Some(t) = tok.next() {
        out.push(t);
    }
    out
}

fn raw_text(t: &AbabaToken) -> Vec<char> {
    match t {
        AbabaToken::LeftBrace => vec!['{'],
        AbabaToken::RightBrace => vec!['}'],
        AbabaToken::LeftBracket => vec!['['],
        AbabaToken::RightBracket => vec![']'],
        AbabaToken::LeftParen => vec!['('],
        AbabaToken::RightParen => vec![')'],
        AbabaToken::ListSeparator => vec![','],
        AbabaToken::FieldSeparator => vec![':'],
        AbabaToken::Ident(s) => s.clone(),
        AbabaToken::Number(s) => s.clone(),
        AbabaToken::UnknownChar(c) => vec![*c],
    }
}

#[test]
fn basic() {
    let mut tok = AbabaTokenizer::new("{}[](),:   -123.456ababa");
    assert_eq!(tok.next(), Some(LeftBrace));
    assert_eq!(tok.next(), Some(RightBrace));
    assert_eq!(tok.next(), Some(LeftBracket));
    assert_eq!(tok.next(), Some(RightBracket));
    assert_eq!(tok.next(), Some(LeftParen));
    assert_eq!(tok.next(), Some(RightParen));
    assert_eq!(tok.next(), Some(ListSeparator));
    assert_eq!(tok.next(), Some(FieldSeparator));
    assert_eq!(tok.next(), Some(Number(text("-123.456"))));
    assert_eq!(tok.next(), Some(Ident(text("ababa"))));
    assert_eq!(tok.next(), None);
}

#[test]
fn list() {
    let mut tok = AbabaTokenizer::new("[1.0, 2, 3,4,5]");
    assert_eq!(tok.next(), Some(LeftBracket));
    assert_eq!(tok.next(), Some(Number(text("1.0"))));
    assert_eq!(tok.next(), Some(ListSeparator));
    assert_eq!(tok.next(), Some(Number(text("2"))));
    assert_eq!(tok.next(), Some(ListSeparator));
    assert_eq!(tok.next(), Some(Number(text("3"))));
    assert_eq!(tok.next(), Some(ListSeparator));
    assert_eq!(tok.next(), Some(Number(text("4"))));
    assert_eq!(tok.next(), Some(ListSeparator));
    assert_eq!(tok.next(), Some(Number(text("5"))));
    assert_eq!(tok.next(), Some(RightBracket));
    assert_eq!(tok.next(), None);
}

#[test]
fn idents() {
    let mut tok = AbabaTokenizer::new("-aba-ba ababa _aba_ba");
    assert_eq!(tok.next(), Some(Number(text("-"))));
    assert_eq!(tok.next(), Some(Ident(text("aba-ba"))));
    assert_eq!(tok.next(), Some(Ident(text("ababa"))));
    assert_eq!(tok.next(), Some(Ident(text("_aba_ba"))));
    assert_eq!(tok.next(), None);
}

#[test]
fn whitespace_only_input_has_no_tokens() {
    assert_eq!(all_tokens(""), vec![]);
    assert_eq!(all_tokens(" \t\n\r  \u{a0}\u{3000}"), vec![]);
}

#[test]
fn token_texts_rebuild_the_input_without_whitespace() {
    let input = "Point { x: 1.5, y: -2_000 }\n[ (1,2) , ?, ] ";
    let joined: Vec<char> = all_tokens(input).iter().flat_map(raw_text).collect();
    let stripped: Vec<char> = input.chars().filter(|c| !c.is_whitespace()).collect();
    assert_eq!(joined, stripped);
}

#[test]
fn unknown_characters_become_single_tokens() {
    assert_eq!(
        all_tokens("?é 7"),
        vec![UnknownChar('?'), UnknownChar('é'), Number(text("7"))]
    );
}

#[test]
fn number_runs_are_not_validated_by_the_tokenizer() {
    assert_eq!(all_tokens("--1..2"), vec![Number(text("--1..2"))]);
    assert_eq!(all_tokens("1_000x"), vec![Number(text("1_000")), Ident(text("x"))]);
}

#[test]
fn peek_does_not_consume() {
    let mut tok = AbabaTokenizer::new("  [ x");
    assert_eq!(tok.peek(), Some(LeftBracket));
    assert_eq!(tok.peek(), Some(LeftBracket));
    assert_eq!(tok.next(), Some(LeftBracket));
    assert_eq!(tok.peek(), Some(Ident(text("x"))));
    assert_eq!(tok.next(), Some(Ident(text("x"))));
    assert_eq!(tok.peek(), None);
    assert_eq!(tok.next(), None);
}
