//! A map keyed by strings, kept as two parallel vectors sorted by key.
//!
//! The view of a `StrMap<V>` is a `Map<Seq<char>, V>`. Besides the map, the
//! type exposes its entries in key order (`key_seq`, `value_seq`), so that
//! callers can walk the entries by index and still state exactly what they
//! have seen. Keys are found by binary search.

use crate::order::{lemma_lex_lt_transitive, lemma_lex_not_le, lex_lt, str_le, strictly_sorted};
use crate::text::str_eq;
use vstd::prelude::*;

verus! {

/// The map that pairs `keys[i]` with `values[i]`.
pub open spec fn seq_map<V>(keys: Seq<Seq<char>>, values: Seq<V>) -> Map<Seq<char>, V> {
    Map::new(|k: Seq<char>| keys.contains(k), |k: Seq<char>| values[keys.index_of(k)])
}

/// The domain of the map is the set of the keys; with distinct keys it has
/// as many elements as there are keys.
pub proof fn lemma_seq_map_dom<V>(keys: Seq<Seq<char>>, values: Seq<V>)
    ensures
        seq_map(keys, values).dom() == keys.to_set(),
        seq_map(keys, values).dom().finite(),
        keys.no_duplicates() ==> seq_map(keys, values).dom().len() == keys.len(),
{
    if keys.no_duplicates() {
        keys.unique_seq_to_set();
    }
}

/// Appending an entry under a new key inserts it into the map.
pub proof fn lemma_seq_map_push<V>(keys: Seq<Seq<char>>, values: Seq<V>, k: Seq<char>, v: V)
    requires
        keys.no_duplicates(),
        keys.len() == values.len(),
        !keys.contains(k),
    ensures
        keys.push(k).no_duplicates(),
        seq_map(keys.push(k), values.push(v)) == seq_map(keys, values).insert(k, v),
{
    let keys2 = keys.push(k);
    let values2 = values.push(v);
    let m = seq_map(keys, values).insert(k, v);
    let m2 = seq_map(keys2, values2);
    assert forall|x: Seq<char>| m.contains_key(x) <==> m2.contains_key(x) by {
        if keys.contains(x) {
            let i = keys.index_of(x);
            assert(keys2[i] == x);
        }
        if x == k {
            assert(keys2[keys.len() as int] == x);
        }
    }
}

/// Putting an entry with a new key in at position `at` inserts it into the
/// map.
pub proof fn lemma_seq_map_insert_at<V>(
    keys: Seq<Seq<char>>,
    values: Seq<V>,
    at: int,
    k: Seq<char>,
    v: V,
)
    requires
        keys.no_duplicates(),
        keys.len() == values.len(),
        0 <= at <= keys.len(),
        !keys.contains(k),
    ensures
        keys.insert(at, k).no_duplicates(),
        seq_map(keys.insert(at, k), values.insert(at, v)) == seq_map(keys, values).insert(k, v),
{
    let keys2 = keys.insert(at, k);
    let values2 = values.insert(at, v);
    let m = seq_map(keys, values).insert(k, v);
    let m2 = seq_map(keys2, values2);
    assert forall|x: Seq<char>| m.contains_key(x) <==> m2.contains_key(x) by {
        if keys.contains(x) {
            let i = keys.index_of(x);
            let i2 = if i < at {
                i
            } else {
                i + 1
            };
            assert(keys2[i2] == x);
        }
        if x == k {
            assert(keys2[at] == x);
        }
    }
}

/// Taking entry `i` out removes its key from the map.
pub proof fn lemma_seq_map_remove_at<V>(keys: Seq<Seq<char>>, values: Seq<V>, i: int)
    requires
        keys.no_duplicates(),
        keys.len() == values.len(),
        0 <= i < keys.len(),
    ensures
        keys.remove(i).no_duplicates(),
        seq_map(keys.remove(i), values.remove(i)) == seq_map(keys, values).remove(keys[i]),
{
    let keys2 = keys.remove(i);
    let values2 = values.remove(i);
    let m = seq_map(keys, values).remove(keys[i]);
    let m2 = seq_map(keys2, values2);
    assert forall|x: Seq<char>| m.contains_key(x) <==> m2.contains_key(x) by {
        if m.contains_key(x) {
            let j = keys.index_of(x);
            let j2 = if j < i {
                j
            } else {
                j - 1
            };
            assert(keys2[j2] == x);
        }
    }
}

/// `at` is where `k` belongs among `keys`: every key before `at` is before
/// `k`, and `k` is before every key from `at` on.
pub open spec fn is_slot(keys: Seq<Seq<char>>, k: Seq<char>, at: int) -> bool {
    &&& 0 <= at <= keys.len()
    &&& forall|j: int| 0 <= j < at ==> lex_lt(#[trigger] keys[j], k)
    &&& forall|j: int| at <= j < keys.len() ==> lex_lt(k, #[trigger] keys[j])
}

/// A finite map from strings to values of type `V`.
pub struct StrMap<V> {
    keys: Vec<String>,
    values: Vec<V>,
}

impl<V> StrMap<V> {
    /// The keys, in ascending order.
    pub closed spec fn key_seq(&self) -> Seq<Seq<char>> {
        self.keys.deep_view()
    }

    /// The values, in the order of `key_seq`.
    pub closed spec fn value_seq(&self) -> Seq<V> {
        self.values@
    }

    /// Every key has its value beside it, and the keys are in ascending
    /// order, so that none is stored twice. Every map that a program holds
    /// is well formed.
    #[verifier::type_invariant]
    pub open spec fn wf(&self) -> bool {
        &&& self.key_seq().len() == self.value_seq().len()
        &&& strictly_sorted(self.key_seq())
    }

    /// The map from each stored key to its value.
    pub open spec fn view(&self) -> Map<Seq<char>, V> {
        seq_map(self.key_seq(), self.value_seq())
    }

    /// The keys of a well-formed map are distinct, and they are its domain.
    pub proof fn lemma_keys(&self)
        requires
            self.wf(),
        ensures
            self.key_seq().no_duplicates(),
            self@.dom() == self.key_seq().to_set(),
            self@.dom().finite(),
            self@.dom().len() == self.key_seq().len(),
    {
        lemma_seq_map_dom(self.key_seq(), self.value_seq());
    }

    /// Entry `i` of a well-formed map is an entry of its view.
    pub proof fn lemma_entry(&self, i: int)
        requires
            self.wf(),
            0 <= i < self.key_seq().len(),
        ensures
            self@.contains_key(self.key_seq()[i]),
            self@[self.key_seq()[i]] == self.value_seq()[i],
    {
    }

    /// An empty map.
    pub fn new() -> (m: Self)
        ensures
            m.wf(),
            m@ == Map::<Seq<char>, V>::empty(),
            m.key_seq().len() == 0,
    {
        StrMap { keys: Vec::new(), values: Vec::new() }
    }

    /// The number of entries.
    pub fn len(&self) -> (n: usize)
        ensures
            n == self.key_seq().len(),
            n == self@.dom().len(),
            self@.dom().finite(),
    {
        proof {
            use_type_invariant(self);
            self.lemma_keys();
        }
        self.keys.len()
    }

    /// The key of entry `i`.
    pub fn key_at(&self, i: usize) -> (key: &String)
        requires
            i < self.key_seq().len(),
        ensures
            key@ == self.key_seq()[i as int],
            self@.contains_key(key@),
    {
        proof {
            use_type_invariant(self);
        }
        &self.keys[i]
    }

    /// The value of entry `i`.
    pub fn value_at(&self, i: usize) -> (value: &V)
        requires
            i < self.key_seq().len(),
        ensures
            *value == self.value_seq()[i as int],
            *value == self@[self.key_seq()[i as int]],
    {
        proof {
            use_type_invariant(self);
        }
        &self.values[i]
    }

    /// Looks `key` up by binary search: `Ok` with the position of its entry,
    /// or `Err` with the slot where an entry for it belongs.
    pub fn find(&self, key: &str) -> (found: Result<usize, usize>)
        ensures
            match found {
                Ok(i) => i < self.key_seq().len() && self.key_seq()[i as int] == key@,
                Err(at) => is_slot(self.key_seq(), key@, at as int) && !self@.contains_key(key@),
            },
    {
        proof {
            use_type_invariant(self);
        }
        let ghost keys = self.key_seq();
        let mut lo: usize = 0;
        let mut hi: usize = self.keys.len();
        while lo < hi
            invariant
                keys == self.key_seq(),
                strictly_sorted(keys),
                lo <= hi <= keys.len(),
                forall|j: int| 0 <= j < lo ==> lex_lt(#[trigger] keys[j], key@),
                forall|j: int| hi <= j < keys.len() ==> lex_lt(key@, #[trigger] keys[j]),
            decreases hi - lo,
        {
            let mid = lo + (hi - lo) / 2;
            let here = self.keys[mid].as_str();
            if str_eq(here, key) {
                return Ok(mid);
            }
            if str_le(here, key) {
                proof {
                    assert forall|j: int| 0 <= j < mid + 1 implies lex_lt(
                        #[trigger] keys[j],
                        key@,
                    ) by {
                        if j < mid {
                            lemma_lex_lt_transitive(keys[j], keys[mid as int], key@);
                        }
                    }
                }
                lo = mid + 1;
            } else {
                proof {
                    lemma_lex_not_le(keys[mid as int], key@);
                    assert forall|j: int| mid <= j < keys.len() implies lex_lt(
                        key@,
                        #[trigger] keys[j],
                    ) by {
                        if j > mid {
                            lemma_lex_lt_transitive(key@, keys[mid as int], keys[j]);
                        }
                    }
                }
                hi = mid;
            }
        }
        Err(lo)
    }

    /// Where `key` is stored, if it is.
    pub fn position(&self, key: &str) -> (at: Option<usize>)
        ensures
            match at {
                Some(i) => i < self.key_seq().len() && self.key_seq()[i as int] == key@,
                None => !self@.contains_key(key@),
            },
    {
        match self.find(key) {
            Ok(i) => Some(i),
            Err(_) => None,
        }
    }

    /// Whether `key` has an entry.
    pub fn contains_key(&self, key: &str) -> (b: bool)
        ensures
            b == self@.contains_key(key@),
    {
        proof {
            use_type_invariant(self);
        }
        match self.find(key) {
            Ok(_) => true,
            Err(_) => false,
        }
    }

    /// The value stored under `key`, if there is one.
    pub fn get(&self, key: &str) -> (value: Option<&V>)
        ensures
            match value {
                Some(v) => self@.contains_key(key@) && *v == self@[key@],
                None => !self@.contains_key(key@),
            },
    {
        proof {
            use_type_invariant(self);
        }
        match self.find(key) {
            Ok(i) => Some(&self.values[i]),
            Err(_) => None,
        }
    }

    /// Replaces the value of entry `i`.
    pub fn set_at(&mut self, i: usize, value: V)
        requires
            i < old(self).key_seq().len(),
        ensures
            final(self).wf(),
            final(self).key_seq() == old(self).key_seq(),
            final(self).value_seq() == old(self).value_seq().update(i as int, value),
            final(self)@ == old(self)@.insert(old(self).key_seq()[i as int], value),
    {
        proof {
            use_type_invariant(&*self);
        }
        self.values[i] = value;
    }

    /// Puts a new entry into the slot where its key belongs.
    pub(crate) fn insert_at(&mut self, at: usize, key: String, value: V)
        requires
            is_slot(old(self).key_seq(), key@, at as int),
        ensures
            final(self).wf(),
            final(self).key_seq() == old(self).key_seq().insert(at as int, key@),
            final(self).value_seq() == old(self).value_seq().insert(at as int, value),
            final(self)@ == old(self)@.insert(key@, value),
            final(self).key_seq().len() <= usize::MAX,
    {
        proof {
            use_type_invariant(&*self);
            lemma_seq_map_insert_at(self.key_seq(), self.value_seq(), at as int, key@, value);
        }
        let mut taken = StrMap::new();
        std::mem::swap(self, &mut taken);
        let StrMap { mut keys, mut values } = taken;
        keys.insert(at, key);
        values.insert(at, value);
        assert(keys.deep_view() =~= old(self).key_seq().insert(at as int, key@));
        *self = StrMap { keys, values };
        assert(self.key_seq().len() == self.keys.len());
    }

    /// Stores `value` under `key`, replacing what was there.
    pub fn insert(&mut self, key: String, value: V)
        ensures
            final(self).wf(),
            final(self)@ == old(self)@.insert(key@, value),
    {
        match self.find(key.as_str()) {
            Ok(i) => self.set_at(i, value),
            Err(at) => self.insert_at(at, key, value),
        }
    }

    /// Takes entry `i` out of the map.
    pub fn take_at(&mut self, i: usize) -> (value: V)
        requires
            i < old(self).key_seq().len(),
        ensures
            final(self).wf(),
            value == old(self).value_seq()[i as int],
            final(self).key_seq() == old(self).key_seq().remove(i as int),
            final(self).value_seq() == old(self).value_seq().remove(i as int),
            final(self)@ == old(self)@.remove(old(self).key_seq()[i as int]),
    {
        proof {
            use_type_invariant(&*self);
            lemma_seq_map_remove_at(self.key_seq(), self.value_seq(), i as int);
        }
        let mut taken = StrMap::new();
        std::mem::swap(self, &mut taken);
        let StrMap { mut keys, mut values } = taken;
        keys.remove(i);
        let value = values.remove(i);
        assert(keys.deep_view() =~= old(self).key_seq().remove(i as int));
        *self = StrMap { keys, values };
        value
    }

    /// Removes `key` and returns the value it had, if it had one.
    pub fn remove(&mut self, key: &str) -> (value: Option<V>)
        ensures
            final(self).wf(),
            final(self)@ == old(self)@.remove(key@),
            match value {
                Some(v) => old(self)@.contains_key(key@) && v == old(self)@[key@],
                None => !old(self)@.contains_key(key@),
            },
    {
        proof {
            use_type_invariant(&*self);
        }
        match self.find(key) {
            Ok(i) => Some(self.take_at(i)),
            Err(_) => None,
        }
    }
}

} // verus!
