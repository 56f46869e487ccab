//! Character classes used by the tokenizer.
//!
//! Unicode classification is std's; it is table-driven and far too large to
//! restate, so each class is named here and the functions below are believed
//! to compute exactly that class.

use vstd::prelude::*;

verus! {

/// The set of characters std calls alphabetic (`char::is_alphabetic`).
pub uninterp spec fn is_alphabetic(c: char) -> bool;

/// The set of characters std calls numeric (`char::is_numeric`).
pub uninterp spec fn is_numeric(c: char) -> bool;

/// The set of characters std calls whitespace (`char::is_whitespace`).
pub uninterp spec fn is_whitespace(c: char) -> bool;

/// Calls `char::is_alphabetic`. Trusted: the result is the named class
/// `is_alphabetic`, a function of the character alone.
#[verifier::external_body]
pub(crate) fn char_is_alphabetic(c: char) -> (b: bool)
    ensures
        b == is_alphabetic(c),
{
    c.is_alphabetic()
}

/// Calls `char::is_numeric`. Trusted: the result is the named class
/// `is_numeric`, a function of the character alone.
#[verifier::external_body]
pub(crate) fn char_is_numeric(c: char) -> (b: bool)
    ensures
        b == is_numeric(c),
{
    c.is_numeric()
}

/// Calls `char::is_whitespace`. Trusted: the result is the named class
/// `is_whitespace`, a function of the character alone.
#[verifier::external_body]
pub(crate) fn char_is_whitespace(c: char) -> (b: bool)
    ensures
        b == is_whitespace(c),
{
    c.is_whitespace()
}

/// ASCII lower-casing of one character: `'A'..='Z'` move to `'a'..='z'`,
/// every other character stays.
pub open spec fn ascii_lower(c: char) -> char {
    if 'A' <= c && c <= 'Z' {
        ((c as u8) + 32) as char
    } else {
        c
    }
}

/// Lower-cases an ASCII letter and leaves every other character alone.
pub fn to_ascii_lower(c: char) -> (r: char)
    ensures
        r == ascii_lower(c),
{
    if 'A' <= c && c <= 'Z' {
        let b: u8 = c as u8;
        (b + 32) as char
    } else {
        c
    }
}

} // verus!
