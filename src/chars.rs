//! Character classes of the language.
use vstd::prelude::*;

verus! {

/// Unicode `White_Space`, as `char::is_whitespace` defines it.
pub open spec fn is_space(c: char) -> bool {
    ('\t' <= c && c <= '\r') || c == ' ' || c == '\u{85}' || c == '\u{a0}' || c == '\u{1680}'
        || ('\u{2000}' <= c && c <= '\u{200a}') || c == '\u{2028}' || c == '\u{2029}'
        || c == '\u{202f}' || c == '\u{205f}' || c == '\u{3000}'
}

pub open spec fn is_digit(c: char) -> bool {
    '0' <= c && c <= '9'
}

pub open spec fn is_letter(c: char) -> bool {
    ('a' <= c && c <= 'z') || ('A' <= c && c <= 'Z')
}

/// A character that begins a number token.
pub open spec fn starts_number(c: char) -> bool {
    c == '-' || is_digit(c)
}

/// A character that continues a number token.
pub open spec fn continues_number(c: char) -> bool {
    is_digit(c) || c == '.' || c == '-' || c == '_'
}

/// A character that begins an identifier.
pub open spec fn starts_ident(c: char) -> bool {
    is_letter(c) || c == '_'
}

/// A character that continues an identifier.
pub open spec fn continues_ident(c: char) -> bool {
    is_letter(c) || c == '_' || c == '-'
}

pub fn is_whitespace(c: char) -> (r: bool)
    ensures
        r == is_space(c),
{
    ('\t' <= c && c <= '\r') || c == ' ' || c == '\u{85}' || c == '\u{a0}' || c == '\u{1680}'
        || ('\u{2000}' <= c && c <= '\u{200a}') || c == '\u{2028}' || c == '\u{2029}'
        || c == '\u{202f}' || c == '\u{205f}' || c == '\u{3000}'
}

pub fn is_number_start(c: char) -> (r: bool)
    ensures
        r == starts_number(c),
{
    c == '-' || ('0' <= c && c <= '9')
}

pub fn is_number_char(c: char) -> (r: bool)
    ensures
        r == continues_number(c),
{
    ('0' <= c && c <= '9') || c == '.' || c == '-' || c == '_'
}

pub fn is_ident_start(c: char) -> (r: bool)
    ensures
        r == starts_ident(c),
{
    ('a' <= c && c <= 'z') || ('A' <= c && c <= 'Z') || c == '_'
}

pub fn is_ident_char(c: char) -> (r: bool)
    ensures
        r == continues_ident(c),
{
    ('a' <= c && c <= 'z') || ('A' <= c && c <= 'Z') || c == '_' || c == '-'
}

/// The characters of `s`, one element each.
pub fn chars_of(s: &str) -> (r: Vec<char>)
    ensures
        r@ == s@,
{
    let n = s.unicode_len();
    let mut r: Vec<char> = Vec::new();
    let mut i: usize = 0;
    while i < n
        invariant
            n == s@.len(),
            i <= n,
            r@ == s@.subrange(0, i as int),
        decreases n - i,
    {
        r.push(s.get_char(i));
        i = i + 1;
    }
    assert(r@ =~= s@);
    r
}

} // verus!
