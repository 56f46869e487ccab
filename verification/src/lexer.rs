//! The tokenizer: raw text in, normalised terms out.

use crate::chars::{
    ascii_lower, char_is_alphabetic, char_is_numeric, char_is_whitespace, is_alphabetic,
    is_numeric, is_whitespace, to_ascii_lower,
};
use crate::stem::{english_stem, stem_english, MAX_STEM_CHARS};
use crate::text::string_from_chars;
use vstd::prelude::*;

verus! {

/// The character classes that delimit runs in the input.
pub enum CharClass {
    Alphabetic,
    Numeric,
    Whitespace,
}

/// Whether `c` belongs to `class`.
pub open spec fn in_class(class: CharClass, c: char) -> bool {
    match class {
        CharClass::Alphabetic => is_alphabetic(c),
        CharClass::Numeric => is_numeric(c),
        CharClass::Whitespace => is_whitespace(c),
    }
}

/// Length of the longest prefix of `s` that lies wholly in `class`.
pub open spec fn run_len(s: Seq<char>, class: CharClass) -> nat
    decreases s.len(),
{
    if s.len() > 0 && in_class(class, s[0]) {
        1 + run_len(s.skip(1), class)
    } else {
        0
    }
}

/// `n` is the length of the maximal run of `class` at the front of `s`:
/// everything before `n` is in the class and the character at `n`, if there
/// is one, is not.
pub open spec fn is_maximal_run(s: Seq<char>, class: CharClass, n: int) -> bool {
    &&& 0 <= n <= s.len()
    &&& forall|i: int| 0 <= i < n ==> in_class(class, #[trigger] s[i])
    &&& n < s.len() ==> !in_class(class, s[n])
}

/// `run_len` is the one and only maximal run length.
pub proof fn lemma_run_len_maximal(s: Seq<char>, class: CharClass, n: int)
    ensures
        is_maximal_run(s, class, run_len(s, class) as int),
        is_maximal_run(s, class, n) ==> n == run_len(s, class),
    decreases s.len(),
{
    if s.len() > 0 && in_class(class, s[0]) {
        let t = s.skip(1);
        lemma_run_len_maximal(t, class, n - 1);
        let m = run_len(t, class) as int;
        assert forall|i: int| 0 <= i < m + 1 implies in_class(class, #[trigger] s[i]) by {
            if i > 0 {
                assert(s[i] == t[i - 1]);
            }
        }
    }
}

/// A run of `class` that starts with a character of the class is not empty,
/// and no run is longer than its input.
pub proof fn lemma_run_len_bounds(s: Seq<char>, class: CharClass)
    ensures
        run_len(s, class) <= s.len(),
        s.len() > 0 && in_class(class, s[0]) ==> run_len(s, class) >= 1,
{
    lemma_run_len_maximal(s, class, 0);
}

/// The input with its leading whitespace removed.
pub open spec fn skip_whitespace(s: Seq<char>) -> Seq<char> {
    s.skip(run_len(s, CharClass::Whitespace) as int)
}

/// A word with each ASCII capital replaced by its small letter.
pub open spec fn lowercase(s: Seq<char>) -> Seq<char> {
    Seq::new(s.len(), |i: int| ascii_lower(s[i]))
}

/// The term that stands for an alphabetic run: the run lower-cased and then
/// stemmed. A run too long for the stemmer is only lower-cased.
pub open spec fn normalize_word(run: Seq<char>) -> Seq<char> {
    let lowered = lowercase(run);
    if lowered.len() <= MAX_STEM_CHARS {
        english_stem(lowered)
    } else {
        lowered
    }
}

/// How many characters the token at the front of `s` spans. `s` is not
/// empty and does not start with whitespace.
pub open spec fn token_len(s: Seq<char>) -> nat {
    if is_alphabetic(s[0]) {
        run_len(s, CharClass::Alphabetic)
    } else if is_numeric(s[0]) {
        run_len(s, CharClass::Numeric)
    } else {
        1
    }
}

/// The term emitted for the raw token `raw`: alphabetic runs are normalised,
/// numeric runs and single characters are kept as they are.
pub open spec fn term_of(raw: Seq<char>) -> Seq<char> {
    if is_alphabetic(raw[0]) {
        normalize_word(raw)
    } else {
        raw
    }
}

/// The first term of `s` and the input that follows it, or `None` when `s`
/// holds nothing but whitespace.
pub open spec fn first_token(s: Seq<char>) -> Option<(Seq<char>, Seq<char>)> {
    let t = skip_whitespace(s);
    if t.len() == 0 {
        None
    } else {
        let n = token_len(t) as int;
        Some((term_of(t.take(n)), t.skip(n)))
    }
}

/// Every token spans at least one character and stays inside the input.
pub proof fn lemma_token_len_bounds(s: Seq<char>)
    requires
        s.len() > 0,
    ensures
        1 <= token_len(s) <= s.len(),
{
    lemma_run_len_bounds(s, CharClass::Alphabetic);
    lemma_run_len_bounds(s, CharClass::Numeric);
}

/// Taking a token off the input makes the input shorter.
pub proof fn lemma_first_token_shrinks(s: Seq<char>)
    ensures
        first_token(s) matches Some((_, rest)) ==> rest.len() < s.len(),
{
    lemma_run_len_bounds(s, CharClass::Whitespace);
    let t = skip_whitespace(s);
    if t.len() > 0 {
        lemma_token_len_bounds(t);
    }
}

/// All the terms of `s`, in the order in which they occur.
pub open spec fn tokens(s: Seq<char>) -> Seq<Seq<char>>
    decreases s.len(),
    via tokens_decreases
{
    match first_token(s) {
        None => Seq::empty(),
        Some((term, rest)) => seq![term] + tokens(rest),
    }
}

#[via_fn]
proof fn tokens_decreases(s: Seq<char>) {
    lemma_first_token_shrinks(s);
}

/// A text has at most as many terms as it has characters.
pub proof fn lemma_token_count_bound(s: Seq<char>)
    ensures
        tokens(s).len() <= s.len(),
    decreases s.len(),
{
    lemma_first_token_shrinks(s);
    match first_token(s) {
        None => {},
        Some((_, rest)) => {
            lemma_token_count_bound(rest);
        },
    }
}

/// A single pass over a character slice. The view is the input that has not
/// been consumed yet.
pub struct Lexer<'a> {
    content: &'a [char],
}

impl<'a> Lexer<'a> {
    /// The characters still to be read.
    pub closed spec fn view(&self) -> Seq<char> {
        self.content@
    }

    /// Starts a pass at the beginning of `content`.
    pub fn new(content: &'a [char]) -> (lexer: Self)
        ensures
            lexer@ == content@,
    {
        Self { content }
    }

    /// Number of characters still to be read.
    pub fn remaining(&self) -> (n: usize)
        ensures
            n == self@.len(),
    {
        self.content.len()
    }

    /// Takes the next `n` characters off the input and returns them.
    pub fn consume(&mut self, n: usize) -> (token: &'a [char])
        requires
            n <= old(self)@.len(),
        ensures
            token@ == old(self)@.take(n as int),
            final(self)@ == old(self)@.skip(n as int),
    {
        let content: &'a [char] = self.content;
        let (token, rest) = content.split_at(n);
        self.content = rest;
        token
    }

    /// Takes the longest prefix whose characters all pass `condition`.
    pub fn consume_while<F>(&mut self, condition: F) -> (token: &'a [char]) where
        F: Fn(&char) -> bool,

        requires
            forall|c: &char| #[trigger] condition.requires((c,)),
        ensures
            token@ + final(self)@ == old(self)@,
            forall|i: int|
                0 <= i < token@.len() ==> condition.ensures((&#[trigger] token@[i],), true),
            final(self)@.len() > 0 ==> condition.ensures((&final(self)@[0],), false),
    {
        let mut n: usize = 0;
        let mut go_on: bool = true;
        while go_on
            invariant
                self.content@ == old(self).content@,
                n <= self.content@.len(),
                forall|c: &char| #[trigger] condition.requires((c,)),
                forall|i: int|
                    0 <= i < n ==> condition.ensures((&#[trigger] self.content@[i],), true),
                !go_on && n < self.content@.len() ==> condition.ensures(
                    (&self.content@[n as int],),
                    false,
                ),
            decreases self.content@.len() - n + (if go_on { 1int } else { 0int }),
        {
            if n < self.content.len() && condition(&self.content[n]) {
                n += 1;
            } else {
                go_on = false;
            }
        }
        let token = self.consume(n);
        token
    }

    /// Drops leading whitespace and returns what is left.
    pub fn remove_whitespace(&mut self) -> (rest: &'a [char])
        ensures
            final(self)@ == old(self)@.skip(run_len(old(self)@, CharClass::Whitespace) as int),
            rest@ == final(self)@,
    {
        let ghost start = self.content@;
        let ghost mut dropped: int = 0;
        while self.content.len() > 0
            invariant
                0 <= dropped <= start.len(),
                self.content@ == start.skip(dropped),
                forall|i: int| 0 <= i < dropped ==> is_whitespace(#[trigger] start[i]),
            ensures
                is_maximal_run(start, CharClass::Whitespace, dropped),
            decreases self.content@.len(),
        {
            let content: &'a [char] = self.content;
            let c = content[0];
            if char_is_whitespace(c) {
                let (_, rest) = content.split_at(1);
                self.content = rest;
                proof {
                    dropped = dropped + 1;
                }
            } else {
                break;
            }
        }
        proof {
            lemma_run_len_maximal(start, CharClass::Whitespace, dropped);
        }
        self.content
    }

    /// Reads the next term: skips whitespace, then takes an alphabetic run
    /// (lower-cased and stemmed), a numeric run (verbatim) or one character.
    /// `None` means that the input is exhausted.
    pub fn next_token(&mut self) -> (term: Option<String>)
        ensures
            match first_token(old(self)@) {
                None => term is None && final(self)@.len() == 0,
                Some((t, rest)) => term matches Some(s) && s@ == t && final(self)@ == rest,
            },
            term is Some ==> final(self)@.len() < old(self)@.len(),
    {
        proof {
            lemma_first_token_shrinks(old(self)@);
        }
        self.remove_whitespace();
        if self.content.len() == 0 {
            return None;
        }
        let ghost t = self.content@;
        let c = self.content[0];
        if char_is_alphabetic(c) {
            let alphabetic = |ch: &char| -> (b: bool)
                ensures
                    b == is_alphabetic(*ch),
                { char_is_alphabetic(*ch) };
            let run = self.consume_while(alphabetic);
            proof {
                lemma_split_is_maximal_run(t, CharClass::Alphabetic, run@, self.content@);
            }
            let lowered = lower_all(run);
            let word = string_from_chars(lowered.as_slice());
            if lowered.len() <= MAX_STEM_CHARS {
                return Some(stem_english(word.as_str()));
            }
            return Some(word);
        }
        if char_is_numeric(c) {
            let numeric = |ch: &char| -> (b: bool)
                ensures
                    b == is_numeric(*ch),
                { char_is_numeric(*ch) };
            let run = self.consume_while(numeric);
            proof {
                lemma_split_is_maximal_run(t, CharClass::Numeric, run@, self.content@);
            }
            return Some(string_from_chars(run));
        }
        Some(string_from_chars(self.consume(1)))
    }

    /// The same as `next_token`, under the name that iteration uses.
    pub fn next(&mut self) -> (term: Option<String>)
        ensures
            match first_token(old(self)@) {
                None => term is None && final(self)@.len() == 0,
                Some((t, rest)) => term matches Some(s) && s@ == t && final(self)@ == rest,
            },
            term is Some ==> final(self)@.len() < old(self)@.len(),
    {
        self.next_token()
    }
}

/// A prefix whose characters are all in `class`, followed by a rest that
/// does not start in `class`, is the maximal run.
proof fn lemma_split_is_maximal_run(
    s: Seq<char>,
    class: CharClass,
    run: Seq<char>,
    rest: Seq<char>,
)
    requires
        run + rest == s,
        forall|i: int| 0 <= i < run.len() ==> in_class(class, #[trigger] run[i]),
        rest.len() > 0 ==> !in_class(class, rest[0]),
    ensures
        run.len() == run_len(s, class),
        run == s.take(run.len() as int),
        rest == s.skip(run.len() as int),
{
    let n = run.len() as int;
    lemma_run_len_maximal(s, class, n);
}

/// Lower-cases every character of a word.
fn lower_all(word: &[char]) -> (lowered: Vec<char>)
    ensures
        lowered@ == lowercase(word@),
{
    let mut lowered: Vec<char> = Vec::new();
    let mut i: usize = 0;
    while i < word.len()
        invariant
            i <= word@.len(),
            lowered@ == lowercase(word@.take(i as int)),
        decreases word@.len() - i,
    {
        lowered.push(to_ascii_lower(word[i]));
        i += 1;
    }
    lowered
}

/// Splits a text into its terms.
pub fn tokenize(content: &[char]) -> (terms: Vec<String>)
    ensures
        terms.deep_view() == tokens(content@),
{
    let mut lexer = Lexer::new(content);
    let mut terms: Vec<String> = Vec::new();
    loop
        invariant
            terms.deep_view() + tokens(lexer@) == tokens(content@),
        ensures
            terms.deep_view() == tokens(content@),
        decreases lexer@.len(),
    {
        match lexer.next_token() {
            None => {
                break;
            },
            Some(term) => {
                terms.push(term);
            },
        }
    }
    terms
}

} // verus!
