//! The record kept for one document: how often each term occurs in it, how
//! many terms it has in all, and when its source was last modified.
//!
//! The model of a record is the multiset of its terms. The frequency of a
//! term is its multiplicity and the term count is the size of the multiset,
//! so the term count is the sum of the frequencies by construction.

use crate::error::PersistenceError;
use crate::lexer::{tokens, Lexer};
use crate::strmap::{lemma_seq_map_dom, lemma_seq_map_push, seq_map, StrMap};
use crate::tally::positive;
use vstd::multiset::Multiset;
use vstd::prelude::*;

verus! {

/// What a document record stands for.
pub struct DocView {
    /// The terms of the document, each as often as it occurs.
    pub terms: Multiset<Seq<char>>,
    /// Modification time of the source when the record was built.
    pub last_modified: nat,
}

/// The multiset in which each key of `m` occurs as often as `m` says.
pub open spec fn counts_bag(m: Map<Seq<char>, usize>) -> Multiset<Seq<char>> {
    Multiset::from_map(m.map_values(|v: usize| v as nat))
}

/// The multiplicity of a term in `counts_bag(m)` is its entry in `m`, and 0
/// for a term without an entry.
pub proof fn lemma_bag_count(m: Map<Seq<char>, usize>, t: Seq<char>)
    requires
        m.dom().finite(),
    ensures
        counts_bag(m).count(t) == (if m.contains_key(t) {
            m[t] as nat
        } else {
            0
        }),
{
    let n = m.map_values(|v: usize| v as nat);
    assert(n.dom() =~= m.dom());
}

/// Raising the entry of `t` by one, or giving it the entry 1 if it had none,
/// adds one occurrence of `t` to the multiset.
pub proof fn lemma_bag_insert(m: Map<Seq<char>, usize>, t: Seq<char>, c: usize)
    requires
        m.dom().finite(),
        c == (if m.contains_key(t) {
            m[t] + 1
        } else {
            1
        }),
    ensures
        counts_bag(m.insert(t, c)) == counts_bag(m).insert(t),
{
    let m2 = m.insert(t, c);
    assert forall|x: Seq<char>| counts_bag(m2).count(x) == counts_bag(m).insert(t).count(x) by {
        lemma_bag_count(m, x);
        lemma_bag_count(m2, x);
    }
}

/// The multiset that holds `n` copies of `t` and nothing else.
pub open spec fn copies(t: Seq<char>, n: nat) -> Multiset<Seq<char>>
    decreases n,
{
    if n == 0 {
        Multiset::empty()
    } else {
        copies(t, (n - 1) as nat).insert(t)
    }
}

/// `copies(t, n)` has `n` elements, all of them `t`.
pub proof fn lemma_copies(t: Seq<char>, n: nat)
    ensures
        copies(t, n).len() == n,
        copies(t, n).count(t) == n,
        forall|x: Seq<char>| x != t ==> copies(t, n).count(x) == 0,
    decreases n,
{
    if n > 0 {
        lemma_copies(t, (n - 1) as nat);
    }
}

/// A new entry `t -> c` adds `c` elements to the multiset.
pub proof fn lemma_bag_len_insert(m: Map<Seq<char>, usize>, t: Seq<char>, c: usize)
    requires
        m.dom().finite(),
        !m.contains_key(t),
    ensures
        counts_bag(m.insert(t, c)).len() == counts_bag(m).len() + c,
{
    let m2 = m.insert(t, c);
    lemma_copies(t, c as nat);
    assert forall|x: Seq<char>|
        counts_bag(m2).count(x) == counts_bag(m).add(copies(t, c as nat)).count(x) by {
        lemma_bag_count(m, x);
        lemma_bag_count(m2, x);
    }
    assert(counts_bag(m2) =~= counts_bag(m).add(copies(t, c as nat)));
}

/// The terms of a list of `(term, frequency)` pairs.
pub open spec fn part_keys(parts: Seq<(String, usize)>) -> Seq<Seq<char>> {
    Seq::new(parts.len(), |i: int| parts[i].0@)
}

/// The frequencies of a list of `(term, frequency)` pairs.
pub open spec fn part_values(parts: Seq<(String, usize)>) -> Seq<usize> {
    Seq::new(parts.len(), |i: int| parts[i].1)
}

/// The sum of a sequence of numbers.
pub open spec fn seq_sum(values: Seq<usize>) -> nat
    decreases values.len(),
{
    if values.len() == 0 {
        0
    } else {
        seq_sum(values.drop_last()) + values.last() as nat
    }
}

/// The multiset that a list of `(term, frequency)` pairs with distinct terms
/// describes.
pub open spec fn parts_bag(parts: Seq<(String, usize)>) -> Multiset<Seq<char>> {
    counts_bag(seq_map(part_keys(parts), part_values(parts)))
}

/// What is wrong with a list of `(term, frequency)` pairs and a term count
/// that are to make a record, if anything. A repeated term is reported
/// first, then a zero frequency, then a term count that is not the sum of
/// the frequencies.
pub open spec fn parts_error(parts: Seq<(String, usize)>, count: usize) -> Option<
    PersistenceError,
> {
    if !part_keys(parts).no_duplicates() {
        Some(PersistenceError::DuplicateTerm)
    } else if part_values(parts).contains(0) {
        Some(PersistenceError::ZeroFrequency)
    } else if seq_sum(part_values(parts)) != count {
        Some(PersistenceError::CountMismatch)
    } else {
        None
    }
}

/// With distinct keys, the multiset of a table has as many elements as its
/// values add up to.
pub proof fn lemma_bag_len_is_sum(keys: Seq<Seq<char>>, values: Seq<usize>)
    requires
        keys.no_duplicates(),
        keys.len() == values.len(),
    ensures
        counts_bag(seq_map(keys, values)).len() == seq_sum(values),
    decreases keys.len(),
{
    if keys.len() == 0 {
        assert(seq_map(keys, values) =~= Map::<Seq<char>, usize>::empty());
        lemma_bag_count_all_zero(seq_map(keys, values));
    } else {
        let k0 = keys.drop_last();
        let v0 = values.drop_last();
        lemma_bag_len_is_sum(k0, v0);
        lemma_seq_map_push(k0, v0, keys.last(), values.last());
        assert(k0.push(keys.last()) =~= keys);
        assert(v0.push(values.last()) =~= values);
        lemma_seq_map_dom(k0, v0);
        lemma_bag_len_insert(seq_map(k0, v0), keys.last(), values.last());
    }
}

/// The record of one document.
pub struct Doc {
    term_frequency: StrMap<usize>,
    count: usize,
    last_modified: u64,
}

impl Doc {
    /// The table is a well-formed map without zero entries, and the term
    /// count is the sum of its entries. Every record that a program holds
    /// is well formed.
    #[verifier::type_invariant]
    pub closed spec fn wf(&self) -> bool {
        &&& self.term_frequency.wf()
        &&& positive(self.term_frequency@)
        &&& self.count == counts_bag(self.term_frequency@).len()
    }

    /// The terms of the document and its modification time.
    pub closed spec fn view(&self) -> DocView {
        DocView {
            terms: counts_bag(self.term_frequency@),
            last_modified: self.last_modified as nat,
        }
    }

    /// Tokenizes `content` and counts its terms.
    pub fn build(content: &[char], last_modified: u64) -> (doc: Doc)
        ensures
            doc.wf(),
            doc@.terms == tokens(content@).to_multiset(),
            doc@.last_modified == last_modified,
    {
        let mut lexer = Lexer::new(content);
        let mut term_frequency: StrMap<usize> = StrMap::new();
        let mut count: usize = 0;
        let ghost mut seen: Seq<Seq<char>> = Seq::empty();
        proof {
            lemma_bag_count_all_zero(term_frequency@);
        }
        loop
            invariant
                term_frequency.wf(),
                positive(term_frequency@),
                counts_bag(term_frequency@) == seen.to_multiset(),
                count == seen.len(),
                count + lexer@.len() <= content@.len(),
                seen + tokens(lexer@) == tokens(content@),
            ensures
                term_frequency.wf(),
                positive(term_frequency@),
                counts_bag(term_frequency@) == tokens(content@).to_multiset(),
                count == counts_bag(term_frequency@).len(),
            decreases lexer@.len(),
        {
            match lexer.next_token() {
                None => {
                    proof {
                        seen.to_multiset_ensures();
                    }
                    break;
                },
                Some(term) => {
                    proof {
                        term_frequency.lemma_keys();
                        lemma_bag_count(term_frequency@, term@);
                        seen.to_multiset_ensures();
                    }
                    match term_frequency.find(term.as_str()) {
                        Ok(i) => {
                            let c = *term_frequency.value_at(i);
                            proof {
                                assert(count < content.len());
                                lemma_bag_insert(term_frequency@, term@, (c + 1) as usize);
                            }
                            term_frequency.set_at(i, c + 1);
                        },
                        Err(at) => {
                            proof {
                                lemma_bag_insert(term_frequency@, term@, 1);
                            }
                            term_frequency.insert_at(at, term, 1);
                        },
                    }
                    count += 1;
                    proof {
                        seen = seen.push(term@);
                    }
                },
            }
        }
        Doc { term_frequency, count, last_modified }
    }

    /// The total number of terms in the document.
    pub fn count(&self) -> (n: usize)
        ensures
            n == self@.terms.len(),
    {
        proof {
            use_type_invariant(self);
        }
        self.count
    }

    /// Modification time of the source when the record was built.
    pub fn last_modified(&self) -> (t: u64)
        ensures
            t == self@.last_modified,
    {
        self.last_modified
    }

    /// How often `term` occurs in the document.
    pub fn frequency(&self, term: &str) -> (n: usize)
        ensures
            n == self@.terms.count(term@),
    {
        proof {
            use_type_invariant(self);
            self.term_frequency.lemma_keys();
            lemma_bag_count(self.term_frequency@, term@);
        }
        match self.term_frequency.get(term) {
            Some(n) => *n,
            None => 0,
        }
    }

    /// Whether `term` occurs in the document.
    pub fn contains(&self, term: &str) -> (b: bool)
        ensures
            b == self@.terms.contains(term@),
    {
        self.frequency(term) > 0
    }

    /// The frequency table: one entry for each distinct term, none of them
    /// zero. The entries add up to the term count.
    pub fn term_frequency(&self) -> (table: &StrMap<usize>)
        ensures
            table.wf(),
            positive(table@),
            counts_bag(table@) == self@.terms,
            seq_sum(table.value_seq()) == self@.terms.len(),
            forall|t: Seq<char>| #[trigger] table@.contains_key(t) <==> self@.terms.contains(t),
    {
        proof {
            use_type_invariant(self);
            self.term_frequency.lemma_keys();
            lemma_bag_len_is_sum(self.term_frequency.key_seq(), self.term_frequency.value_seq());
            assert forall|t: Seq<char>| #[trigger]
                self.term_frequency@.contains_key(t) <==> self@.terms.contains(t) by {
                lemma_bag_count(self.term_frequency@, t);
            }
        }
        &self.term_frequency
    }

    /// Makes a record from its stored parts: the `(term, frequency)` pairs,
    /// the term count and the modification time. The parts are checked;
    /// `parts_error` says which fault is reported.
    pub fn from_parts(parts: &Vec<(String, usize)>, count: usize, last_modified: u64) -> (made:
        Result<Doc, PersistenceError>)
        ensures
            match made {
                Ok(doc) => parts_error(parts@, count) is None && doc.wf() && doc@.terms
                    == parts_bag(parts@) && doc@.last_modified == last_modified,
                Err(e) => parts_error(parts@, count) == Some(e),
            },
    {
        let ghost keys = part_keys(parts@);
        let ghost values = part_values(parts@);
        let mut table: StrMap<usize> = StrMap::new();
        let mut sum: usize = 0;
        let mut too_many: bool = false;
        let mut zero: bool = false;
        let mut i: usize = 0;
        while i < parts.len()
            invariant
                keys == part_keys(parts@),
                values == part_values(parts@),
                i <= parts@.len(),
                table.wf(),
                keys.take(i as int).no_duplicates(),
                table@ == seq_map(keys.take(i as int), values.take(i as int)),
                zero == values.take(i as int).contains(0),
                !too_many ==> sum == seq_sum(values.take(i as int)),
                too_many ==> seq_sum(values.take(i as int)) > usize::MAX,
            decreases parts@.len() - i,
        {
            let term = &parts[i].0;
            let frequency = parts[i].1;
            if table.contains_key(term.as_str()) {
                proof {
                    let j = keys.take(i as int).index_of(term@);
                    assert(keys[j] == keys[i as int]);
                }
                return Err(PersistenceError::DuplicateTerm);
            }
            proof {
                lemma_seq_map_push(keys.take(i as int), values.take(i as int), term@, frequency);
            }
            table.insert(term.clone(), frequency);
            proof {
                let before = values.take(i as int);
                let after = values.take(i + 1);
                assert(keys.take(i as int).push(term@) =~= keys.take(i + 1));
                assert(after.drop_last() =~= before);
                assert(after.contains(0) <==> before.contains(0) || frequency == 0) by {
                    if before.contains(0) {
                        assert(after[before.index_of(0)] == 0);
                    }
                    if frequency == 0 {
                        assert(after[i as int] == 0);
                    }
                    if after.contains(0) && after.index_of(0) < i {
                        assert(before[after.index_of(0)] == 0);
                    }
                }
            }
            if frequency == 0 {
                zero = true;
            }
            if !too_many {
                match sum.checked_add(frequency) {
                    Some(s) => {
                        sum = s;
                    },
                    None => {
                        too_many = true;
                    },
                }
            }
            i += 1;
        }
        proof {
            assert(keys.take(i as int) =~= keys);
            assert(values.take(i as int) =~= values);
        }
        if zero {
            return Err(PersistenceError::ZeroFrequency);
        }
        if too_many || sum != count {
            return Err(PersistenceError::CountMismatch);
        }
        proof {
            lemma_bag_len_is_sum(keys, values);
        }
        Ok(Doc { term_frequency: table, count, last_modified })
    }
}

/// A map without entries gives the empty multiset.
proof fn lemma_bag_count_all_zero(m: Map<Seq<char>, usize>)
    requires
        m == Map::<Seq<char>, usize>::empty(),
    ensures
        counts_bag(m) == Seq::<Seq<char>>::empty().to_multiset(),
        counts_bag(m).len() == 0,
{
    let e = Seq::<Seq<char>>::empty();
    e.to_multiset_ensures();
    assert forall|x: Seq<char>| counts_bag(m).count(x) == e.to_multiset().count(x) by {
        lemma_bag_count(m, x);
    }
}

} // verus!
