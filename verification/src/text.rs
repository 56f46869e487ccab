//! Conversions between strings and character sequences.
//!
//! Terms and document ids are `String`s whose view is the sequence of their
//! characters. vstd gives `String` a view but few operations, so the handful
//! of std calls the library needs are collected here, each with the contract
//! that std documents for it.

use vstd::prelude::*;
use vstd::utf8::{decode_utf8, valid_utf8};

verus! {

/// Collects characters into a `String` (`String::from_iter`). Trusted: the
/// string holds exactly the given characters, in order.
#[verifier::external_body]
pub(crate) fn string_from_chars(chars: &[char]) -> (s: String)
    ensures
        s@ == chars@,
{
    String::from_iter(chars)
}

/// Lists the characters of a string (`str::chars`, collected with
/// `Vec::from_iter`). Trusted: the vector holds exactly the string's
/// characters, in order.
#[verifier::external_body]
pub(crate) fn chars_of(s: &str) -> (chars: Vec<char>)
    ensures
        chars@ == s@,
{
    Vec::from_iter(s.chars())
}

/// Compares two strings with std's `==` on `str`. Trusted: the result says
/// whether they hold the same characters.
#[verifier::external_body]
pub(crate) fn str_eq(a: &str, b: &str) -> (same: bool)
    ensures
        same == (a@ == b@),
{
    a == b
}

/// Reads bytes as UTF-8 (`String::from_utf8`). Trusted: the call succeeds
/// exactly on valid UTF-8 and then gives the characters that the bytes
/// encode.
#[verifier::external_body]
pub(crate) fn string_from_utf8(bytes: Vec<u8>) -> (text: Option<String>)
    ensures
        match text {
            Some(s) => valid_utf8(bytes@) && s@ == decode_utf8(bytes@),
            None => !valid_utf8(bytes@),
        },
{
    String::from_utf8(bytes).ok()
}

} // verus!
