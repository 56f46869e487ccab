//! The English stemmer.
//!
//! Stemming is done by the Snowball English algorithm of `rust_stemmers`. Its
//! rules fill pages, so the library names its result and proves everything
//! else relative to that name.

use rust_stemmers::{Algorithm, Stemmer};
use vstd::prelude::*;

verus! {

/// The longest word, in characters, that is handed to the stemmer. The
/// stemmer keeps byte offsets in 32-bit signed integers; a word of at most
/// this many characters has fewer than 2^31 bytes of UTF-8.
pub const MAX_STEM_CHARS: usize = 0x1FFF_FFFF;

/// The root form that the Snowball English stemmer gives for a word.
pub uninterp spec fn english_stem(word: Seq<char>) -> Seq<char>;

/// Calls `Stemmer::create(Algorithm::English).stem(word)`. Trusted: the
/// stemmer is a pure function of the word, and its result is what
/// `english_stem` names.
#[verifier::external_body]
pub(crate) fn stem_english(word: &str) -> (root: String)
    requires
        word@.len() <= MAX_STEM_CHARS,
    ensures
        root@ == english_stem(word@),
{
    Stemmer::create(Algorithm::English).stem(word).into_owned()
}

} // verus!
