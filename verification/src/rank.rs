//! Ranking: the best hits first, ties in the order of the document ids.
//!
//! A hit carries an integer key that stands for its score: a hit with a
//! larger key ranks earlier. The scores themselves are floating-point
//! numbers and never enter the library; for scores that are not negative,
//! the bit pattern of the number is such a key.

use crate::order::{
    lemma_lex_le_antisymmetric, lemma_lex_le_total, lemma_lex_le_transitive, lex_le, str_le,
};
use vstd::prelude::*;
use vstd::relations::{sorted_by, total_ordering};
use vstd::seq_lib::lemma_sorted_unique;

verus! {

/// The number of hits that a search returns unless the caller asks for
/// another.
pub const DEFAULT_LIMIT: usize = 10;

/// One scored document.
#[derive(Debug, PartialEq, Eq)]
pub struct Hit {
    /// The document id.
    pub id: String,
    /// The key that stands for the score; larger is better.
    pub key: u64,
}

impl Hit {
    /// The id as a character sequence, and the key.
    pub open spec fn view(&self) -> (Seq<char>, u64) {
        (self.id@, self.key)
    }
}

/// The views of a sequence of hits.
pub open spec fn hit_views(hits: Seq<Hit>) -> Seq<(Seq<char>, u64)> {
    Seq::new(hits.len(), |i: int| hits[i]@)
}

/// Whether `a` ranks at or before `b`: by larger key, and among equal keys
/// by the order of the ids.
pub open spec fn ranks_first(a: (Seq<char>, u64), b: (Seq<char>, u64)) -> bool {
    a.1 > b.1 || (a.1 == b.1 && lex_le(a.0, b.0))
}

/// `ranks_first` as a relation.
pub open spec fn rank_order() -> spec_fn((Seq<char>, u64), (Seq<char>, u64)) -> bool {
    |a: (Seq<char>, u64), b: (Seq<char>, u64)| ranks_first(a, b)
}

/// `ranks_first` is a total order.
pub proof fn lemma_rank_order_total()
    ensures
        total_ordering(rank_order()),
{
    let r = rank_order();
    assert forall|x: (Seq<char>, u64), y: (Seq<char>, u64)| #[trigger]
        r(x, y) && #[trigger] r(y, x) implies x == y by {
        lemma_lex_le_antisymmetric(x.0, y.0);
    }
    assert forall|x: (Seq<char>, u64), y: (Seq<char>, u64), z: (Seq<char>, u64)| #[trigger]
        r(x, y) && #[trigger] r(y, z) implies r(x, z) by {
        if x.1 == y.1 && y.1 == z.1 {
            lemma_lex_le_transitive(x.0, y.0, z.0);
        }
    }
    assert forall|x: (Seq<char>, u64), y: (Seq<char>, u64)| #[trigger]
        r(x, y) || #[trigger] r(y, x) by {
        lemma_lex_le_total(x.0, y.0);
    }
}

/// The hits in ranking order: best key first, equal keys by id.
pub open spec fn ranking(hits: Seq<(Seq<char>, u64)>) -> Seq<(Seq<char>, u64)> {
    hits.sort_by(rank_order())
}

/// Whether `a` ranks at or before `b`.
pub fn hit_ranks_first(a: &Hit, b: &Hit) -> (first: bool)
    ensures
        first == ranks_first(a@, b@),
{
    a.key > b.key || (a.key == b.key && str_le(a.id.as_str(), b.id.as_str()))
}

/// Inserting an element adds it to the multiset of a sequence.
proof fn lemma_insert_to_multiset<A>(s: Seq<A>, at: int, a: A)
    requires
        0 <= at <= s.len(),
    ensures
        s.insert(at, a).to_multiset() == s.to_multiset().insert(a),
{
    let t = s.insert(at, a);
    t.to_multiset_ensures();
    assert(t.remove(at) =~= s);
}

/// Where `h` belongs in a ranking `s`: behind the last hit that ranks at or
/// before it.
pub open spec fn rank_slot(s: Seq<(Seq<char>, u64)>, h: (Seq<char>, u64)) -> int
    decreases s.len(),
{
    if s.len() == 0 {
        0
    } else if ranks_first(s.last(), h) {
        s.len() as int
    } else {
        rank_slot(s.drop_last(), h)
    }
}

/// In a ranking, the hits in front of the slot of `h` rank at or before
/// `h` and the hits from the slot on do not; with `h` put into its slot the
/// sequence is a ranking still.
proof fn lemma_rank_slot(s: Seq<(Seq<char>, u64)>, h: (Seq<char>, u64))
    requires
        sorted_by(s, rank_order()),
    ensures
        0 <= rank_slot(s, h) <= s.len(),
        forall|j: int| 0 <= j < rank_slot(s, h) ==> ranks_first(#[trigger] s[j], h),
        forall|j: int| rank_slot(s, h) <= j < s.len() ==> !ranks_first(#[trigger] s[j], h),
        sorted_by(s.insert(rank_slot(s, h), h), rank_order()),
    decreases s.len(),
{
    lemma_rank_order_total();
    if s.len() > 0 {
        if ranks_first(s.last(), h) {
            assert forall|j: int| 0 <= j < s.len() implies ranks_first(#[trigger] s[j], h) by {
                if j < s.len() - 1 {
                    assert(rank_order()(s[j], s.last()));
                    assert(rank_order()(s.last(), h));
                }
            }
        } else {
            lemma_rank_slot(s.drop_last(), h);
            assert forall|j: int| rank_slot(s, h) <= j < s.len() implies !ranks_first(
                #[trigger] s[j],
                h,
            ) by {
                if j < s.len() - 1 {
                    assert(s.drop_last()[j] == s[j]);
                }
            }
            assert forall|j: int| 0 <= j < rank_slot(s, h) implies ranks_first(
                #[trigger] s[j],
                h,
            ) by {
                assert(s.drop_last()[j] == s[j]);
            }
        }
    }
    let at = rank_slot(s, h);
    let now = s.insert(at, h);
    assert forall|i: int, j: int| 0 <= i < j < now.len() implies #[trigger] rank_order()(
        now[i],
        now[j],
    ) by {
        if i == at {
            lemma_lex_le_total(s[j - 1].0, h.0);
        }
    }
}

/// A sorted sequence with the multiset of `all` is the ranking of `all`.
proof fn lemma_is_ranking(done: Seq<(Seq<char>, u64)>, all: Seq<(Seq<char>, u64)>)
    requires
        sorted_by(done, rank_order()),
        done.to_multiset() == all.to_multiset(),
    ensures
        done == ranking(all),
{
    lemma_rank_order_total();
    all.lemma_sort_by_ensures(rank_order());
    lemma_sorted_unique(done, all.sort_by(rank_order()), rank_order());
}

/// The smaller of a limit and a length.
pub open spec fn capped(limit: usize, len: nat) -> int {
    if limit <= len {
        limit as int
    } else {
        len as int
    }
}

/// Puts the hits into ranking order and keeps the first `limit` of them.
/// Only the hits kept so far are held in order, so that the work grows with
/// the number of hits times the limit.
pub fn rank(hits: Vec<Hit>, limit: usize) -> (top: Vec<Hit>)
    ensures
        hit_views(top@) == ranking(hit_views(hits@)).take(capped(limit, hits@.len())),
{
    let ghost all = hit_views(hits@);
    let mut rest = hits;
    let mut top: Vec<Hit> = Vec::new();
    let ghost mut full: Seq<(Seq<char>, u64)> = Seq::empty();
    proof {
        full.to_multiset_ensures();
    }
    while rest.len() > 0
        invariant
            sorted_by(full, rank_order()),
            full.to_multiset().add(hit_views(rest@).to_multiset()) == all.to_multiset(),
            full.len() + rest@.len() == all.len(),
            hit_views(top@) == full.take(capped(limit, full.len())),
        decreases rest@.len(),
    {
        let ghost rest_before = hit_views(rest@);
        let ghost top_before = hit_views(top@);
        let hit = rest.pop().unwrap();
        let ghost h = hit@;
        let ghost slot = rank_slot(full, h);
        proof {
            lemma_rank_slot(full, h);
            lemma_insert_to_multiset(full, slot, h);
            hit_views(rest@).to_multiset_ensures();
            assert(rest_before =~= hit_views(rest@).push(h));
        }
        let n = top.len();
        assert(top_before.len() == n);
        if n == limit && (n == 0 || hit_ranks_first(&top[n - 1], &hit)) {
            // The list is full and the hit ranks behind all of it.
            proof {
                if n > 0 {
                    assert(top_before[n - 1] == full[n - 1]);
                }
            }
        } else {
            let mut at: usize = 0;
            while at < top.len() && hit_ranks_first(&top[at], &hit)
                invariant
                    at <= top@.len(),
                    h == hit@,
                    top_before == hit_views(top@),
                    forall|k: int| 0 <= k < at ==> ranks_first(#[trigger] top_before[k], h),
                decreases top@.len() - at,
            {
                at += 1;
            }
            // The place found in the list is the slot in the full ranking.
            proof {
                if slot < at {
                    assert(top_before[slot] == full[slot]);
                }
                if at < n {
                    assert(top_before[at as int] == full[at as int]);
                } else if n == limit {
                    assert(top_before[n - 1] == full[n - 1]);
                }
            }
            top.insert(at, hit);
            if top.len() > limit {
                top.pop();
            }
            proof {
                let wider = full.insert(slot, h);
                let kept = hit_views(top@);
                assert forall|k: int| 0 <= k < kept.len() implies kept[k] == wider[k] by {
                    if k > at {
                        assert(top_before[k - 1] == full[k - 1]);
                    }
                }
            }
        }
        proof {
            full = full.insert(slot, h);
        }
    }
    proof {
        hit_views(rest@).to_multiset_ensures();
        assert(full.to_multiset() =~= all.to_multiset());
        lemma_is_ranking(full, all);
    }
    top
}

} // verus!
