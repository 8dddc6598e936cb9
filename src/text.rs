//! Character classes and the few std text operations the scanner relies on.
use vstd::prelude::*;

verus! {

/// Whether a character beyond ASCII has Unicode's `White_Space` property, as
/// `char::is_whitespace` decides.
pub uninterp spec fn wide_white_space(c: char) -> bool;

/// Whether a character has Unicode's `White_Space` property: among ASCII, the
/// space and the controls from tab to carriage return.
pub open spec fn white_space(c: char) -> bool {
    if (c as u32) < 128 {
        c == ' ' || ('\t' <= c && c <= '\r')
    } else {
        wide_white_space(c)
    }
}

/// Whether a character has Unicode's `Alphabetic` property, as `char::is_alphabetic` decides.
pub uninterp spec fn alphabetic(c: char) -> bool;

/// The upper-case mapping of a text, as `str::to_uppercase` computes it.
pub uninterp spec fn upper_of(s: Seq<char>) -> Seq<char>;

/// Relies on `char::is_whitespace`: true exactly for `White_Space` characters.
#[verifier::external_body]
fn char_is_whitespace(c: char) -> (r: bool)
    ensures
        r == white_space(c),
        (c as u32) >= 128 ==> r == wide_white_space(c),
{
    c.is_whitespace()
}

/// Relies on `char::is_alphabetic`: true exactly for `Alphabetic` characters.
#[verifier::external_body]
fn char_is_alphabetic(c: char) -> (r: bool)
    ensures
        r == alphabetic(c),
{
    c.is_alphabetic()
}

/// Relies on `str::to_uppercase`: the result depends on the text alone.
#[verifier::external_body]
pub(crate) fn to_uppercase(s: &String) -> (r: String)
    ensures
        r@ == upper_of(s@),
{
    s.to_uppercase()
}

/// Relies on `str::chars` collected into a `Vec`: the code points of the text, in order.
#[verifier::external_body]
pub(crate) fn chars_of(s: &String) -> (r: Vec<char>)
    ensures
        r@ == s@,
{
    s.chars().collect()
}

/// Relies on collecting `char`s into a `String`: the text made of `v[start..end]`.
#[verifier::external_body]
pub(crate) fn string_of(v: &Vec<char>, start: usize, end: usize) -> (r: String)
    requires
        start <= end <= v@.len(),
    ensures
        r@ == v@.subrange(start as int, end as int),
{
    v[start..end].iter().collect()
}

/// A decimal digit, `0` to `9`: what `char::is_digit(10)` accepts.
pub open spec fn digit(c: char) -> bool {
    '0' <= c && c <= '9'
}

/// A character that may begin an identifier.
pub open spec fn ident_start(c: char) -> bool {
    alphabetic(c) || c == '_'
}

/// A character that may continue an identifier.
pub open spec fn ident_char(c: char) -> bool {
    alphabetic(c) || digit(c) || c == '_'
}

pub fn is_digit(ch: &Option<char>) -> (r: bool)
    ensures
        r == (*ch matches Some(c) && digit(c)),
{
    match ch {
        Some(c) => '0' <= *c && *c <= '9',
        None => false,
    }
}

/// A newline, or the end of the input.
pub fn is_end_of_line(ch: &Option<char>) -> (r: bool)
    ensures
        r == (*ch matches Some(c) ==> c == '\n'),
{
    match ch {
        Some(c) => *c == '\n',
        None => true,
    }
}

pub fn is_valid_1st_char_of_ident(ch: &Option<char>) -> (r: bool)
    ensures
        r == (*ch matches Some(c) && ident_start(c)),
{
    match ch {
        Some(c) => char_is_alphabetic(*c) || *c == '_',
        None => false,
    }
}

pub fn is_valid_char_of_ident(ch: &Option<char>) -> (r: bool)
    ensures
        r == (*ch matches Some(c) && ident_char(c)),
{
    match ch {
        Some(c) => char_is_alphabetic(*c) || ('0' <= *c && *c <= '9') || *c == '_',
        None => false,
    }
}

pub fn is_whitespace(ch: &Option<char>) -> (r: bool)
    ensures
        r == (*ch matches Some(c) && white_space(c)),
{
    match ch {
        Some(c) => char_is_whitespace(*c),
        None => false,
    }
}

} // verus!
