//! A search: every document weighed against the query, scored, and ranked.
//!
//! The score of a document is a floating-point number, which the library
//! does not compute. The caller passes the function that turns the ratios of
//! a document into the key of its hit; the library does everything around
//! that function.

use crate::index::{Index, IndexView};
use crate::rank::{capped, hit_views, rank, ranking, Hit};
use crate::score::{weights_match, Weight};
use vstd::prelude::*;

verus! {

/// `hit` is the hit of the document `id` for `query`: it carries the id,
/// and its key is what `key_of` gives for the ratios of the document.
pub open spec fn is_hit_of<F: Fn(&Vec<Weight>) -> u64>(
    key_of: F,
    hit: Hit,
    index: IndexView,
    id: Seq<char>,
    query: Seq<Seq<char>>,
) -> bool {
    &&& hit.id@ == id
    &&& exists|ws: Vec<Weight>| #[trigger]
        weights_match(ws@, index, index.documents[id], query) && key_of.ensures((&ws,), hit.key)
}

/// `hits` holds the hit of every document of the index, in the order of
/// `ids`.
pub open spec fn are_hits_of<F: Fn(&Vec<Weight>) -> u64>(
    key_of: F,
    hits: Seq<Hit>,
    index: IndexView,
    ids: Seq<Seq<char>>,
    query: Seq<Seq<char>>,
) -> bool {
    &&& hits.len() == ids.len()
    &&& forall|i: int|
        0 <= i < hits.len() ==> is_hit_of(key_of, #[trigger] hits[i], index, ids[i], query)
}

/// Answers a query: weighs every document against the terms of the query,
/// lets `key_of` turn the ratios of each document into the key of its hit,
/// and returns the `limit` best hits in ranking order. An index without
/// documents gives no hits.
pub fn search<F>(index: &Index, query: &Vec<String>, limit: usize, key_of: F) -> (top: Vec<Hit>) where
    F: Fn(&Vec<Weight>) -> u64,

    requires
        forall|ws: &Vec<Weight>| #[trigger] key_of.requires((ws,)),
    ensures
        exists|hits: Seq<Hit>| #[trigger]
            are_hits_of(key_of, hits, index@, index.ids(), query.deep_view()) && hit_views(top@)
                == ranking(hit_views(hits)).take(capped(limit, hits.len())),
{
    let n = index.len();
    let mut hits: Vec<Hit> = Vec::new();
    let mut i: usize = 0;
    while i < n
        invariant
            n == index.ids().len(),
            i <= n,
            forall|ws: &Vec<Weight>| #[trigger] key_of.requires((ws,)),
            are_hits_of(key_of, hits@, index@, index.ids().take(i as int), query.deep_view()),
        decreases n - i,
    {
        let weights = index.weights_at(i, query);
        let key = key_of(&weights);
        let hit = Hit { id: index.id_at(i).clone(), key };
        assert(is_hit_of(key_of, hit, index@, index.ids()[i as int], query.deep_view()));
        hits.push(hit);
        i += 1;
    }
    assert(index.ids().take(n as int) =~= index.ids());
    rank(hits, limit)
}

} // verus!
