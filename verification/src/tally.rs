//! Tallies: maps from terms to positive counts.
//!
//! The corpus keeps, for each term, the number of documents that contain it.
//! Such a table never holds a zero: a term whose count drops to zero loses
//! its entry. The two functions here move a table by one document, given the
//! distinct terms of that document.

use crate::strmap::StrMap;
use vstd::prelude::*;

verus! {

/// The count that `m` gives for `t`: its entry, or 0 where it has none.
pub open spec fn tally_of(m: Map<Seq<char>, usize>, t: Seq<char>) -> nat {
    if m.contains_key(t) {
        m[t] as nat
    } else {
        0
    }
}

/// No entry of `m` is zero.
pub open spec fn positive(m: Map<Seq<char>, usize>) -> bool {
    forall|t: Seq<char>| #[trigger] m.contains_key(t) ==> m[t] >= 1
}

/// 1 if `terms` has an entry for `t`, else 0.
pub open spec fn one_if_in<V>(terms: Map<Seq<char>, V>, t: Seq<char>) -> nat {
    if terms.contains_key(t) {
        1
    } else {
        0
    }
}

/// 1 if `t` is one of `keys`, else 0.
pub open spec fn one_if_listed(keys: Seq<Seq<char>>, t: Seq<char>) -> nat {
    if keys.contains(t) {
        1
    } else {
        0
    }
}

/// Raises the count of every key of `terms` by one; a key without a count
/// gets the count 1.
pub(crate) fn add_terms<V>(tally: &mut StrMap<usize>, terms: &StrMap<V>)
    requires
        positive(old(tally)@),
        forall|t: Seq<char>| #[trigger] tally_of(old(tally)@, t) < usize::MAX,
    ensures
        final(tally).wf(),
        positive(final(tally)@),
        forall|t: Seq<char>| #[trigger]
            tally_of(final(tally)@, t) == tally_of(old(tally)@, t) + one_if_in(terms@, t),
{
    proof {
        use_type_invariant(&*tally);
        use_type_invariant(terms);
    }
    let n = terms.len();
    let mut i: usize = 0;
    while i < n
        invariant
            tally.wf(),
            terms.wf(),
            positive(tally@),
            n == terms.key_seq().len(),
            i <= n,
            forall|t: Seq<char>| #[trigger] tally_of(old(tally)@, t) < usize::MAX,
            forall|t: Seq<char>| #[trigger]
                tally_of(tally@, t) == tally_of(old(tally)@, t) + one_if_listed(
                    terms.key_seq().take(i as int),
                    t,
                ),
        decreases n - i,
    {
        let term = terms.key_at(i);
        let ghost before = tally@;
        let ghost done = terms.key_seq().take(i as int);
        proof {
            assert(tally_of(before, term@) == tally_of(old(tally)@, term@));
        }
        match tally.find(term.as_str()) {
            Ok(at) => {
                let c = *tally.value_at(at);
                tally.set_at(at, c + 1);
            },
            Err(at) => {
                tally.insert_at(at, term.clone(), 1);
            },
        }
        i += 1;
        proof {
            let now = terms.key_seq().take(i as int);
            assert forall|t: Seq<char>|
                tally_of(tally@, t) == tally_of(old(tally)@, t) + one_if_listed(now, t) by {
                assert(tally_of(before, t) == tally_of(old(tally)@, t) + one_if_listed(done, t));
                if t == term@ {
                    assert(now[i - 1] == t);
                }
            }
        }
    }
    proof {
        assert(terms.key_seq().take(n as int) =~= terms.key_seq());
    }
}

/// Lowers the count of every key of `terms` by one; a key whose count
/// reaches zero loses its entry. Every key of `terms` must have a count.
pub(crate) fn drop_terms<V>(tally: &mut StrMap<usize>, terms: &StrMap<V>)
    requires
        positive(old(tally)@),
        forall|t: Seq<char>| #[trigger] terms@.contains_key(t) ==> old(tally)@.contains_key(t),
    ensures
        final(tally).wf(),
        positive(final(tally)@),
        forall|t: Seq<char>| #[trigger]
            tally_of(final(tally)@, t) == tally_of(old(tally)@, t) - one_if_in(terms@, t),
{
    proof {
        use_type_invariant(&*tally);
        use_type_invariant(terms);
    }
    let n = terms.len();
    let mut i: usize = 0;
    while i < n
        invariant
            tally.wf(),
            terms.wf(),
            positive(tally@),
            positive(old(tally)@),
            n == terms.key_seq().len(),
            i <= n,
            forall|t: Seq<char>| #[trigger] terms@.contains_key(t) ==> old(tally)@.contains_key(t),
            forall|t: Seq<char>| #[trigger]
                tally_of(tally@, t) == tally_of(old(tally)@, t) - one_if_listed(
                    terms.key_seq().take(i as int),
                    t,
                ),
        decreases n - i,
    {
        let term = terms.key_at(i);
        let ghost before = tally@;
        let ghost done = terms.key_seq().take(i as int);
        proof {
            assert(tally_of(before, term@) == tally_of(old(tally)@, term@));
        }
        match tally.find(term.as_str()) {
            Ok(at) => {
                let c = *tally.value_at(at);
                if c > 1 {
                    tally.set_at(at, c - 1);
                } else {
                    tally.take_at(at);
                }
            },
            Err(_) => {
                // A count is never lowered below zero: the term has an entry.
                assert(false);
            },
        }
        i += 1;
        proof {
            let now = terms.key_seq().take(i as int);
            assert forall|t: Seq<char>|
                tally_of(tally@, t) == tally_of(old(tally)@, t) - one_if_listed(now, t) by {
                assert(tally_of(before, t) == tally_of(old(tally)@, t) - one_if_listed(done, t));
                if t == term@ {
                    assert(now[i - 1] == t);
                }
            }
        }
    }
    proof {
        assert(terms.key_seq().take(n as int) =~= terms.key_seq());
    }
}

} // verus!
