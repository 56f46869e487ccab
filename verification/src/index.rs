//! The corpus index: every document record, and for each term the number of
//! documents that contain it.

use crate::document::{Doc, DocView};
use crate::order::strictly_sorted;
use crate::strmap::StrMap;
use crate::tally::{add_terms, drop_terms, positive, tally_of};
use vstd::prelude::*;
use vstd::set_lib::lemma_len_subset;

verus! {

/// What a corpus index stands for.
pub struct IndexView {
    /// The record of each document, by document id.
    pub documents: Map<Seq<char>, DocView>,
    /// For each term that occurs in the corpus, the number of documents
    /// that contain it.
    pub document_frequency: Map<Seq<char>, nat>,
}

/// The ids of the documents of `docs` that contain the term `t`.
pub open spec fn containing(docs: Map<Seq<char>, DocView>, t: Seq<char>) -> Set<Seq<char>> {
    Set::new(|id: Seq<char>| docs.contains_key(id) && docs[id].terms.contains(t))
}

/// The number of documents of `docs` that contain the term `t`.
pub open spec fn document_count(docs: Map<Seq<char>, DocView>, t: Seq<char>) -> nat {
    containing(docs, t).len()
}

/// The document-frequency table that belongs to `docs`: an entry for each
/// term that some document contains, holding the number of such documents.
pub open spec fn frequencies_of(docs: Map<Seq<char>, DocView>) -> Map<Seq<char>, nat> {
    Map::new(
        |t: Seq<char>| document_count(docs, t) > 0,
        |t: Seq<char>| document_count(docs, t),
    )
}

impl IndexView {
    /// The document-frequency table is the one that belongs to the
    /// documents.
    pub open spec fn consistent(self) -> bool {
        &&& self.documents.dom().finite()
        &&& self.document_frequency == frequencies_of(self.documents)
    }
}

/// Among finitely many documents, those that contain a term are finitely
/// many and no more than all.
pub proof fn lemma_document_count_bound(docs: Map<Seq<char>, DocView>, t: Seq<char>)
    requires
        docs.dom().finite(),
    ensures
        containing(docs, t).finite(),
        document_count(docs, t) <= docs.dom().len(),
{
    lemma_len_subset(containing(docs, t), docs.dom());
}

/// Taking a document away lowers by one the count of each term it contains
/// and leaves the other counts alone.
pub proof fn lemma_document_count_remove(docs: Map<Seq<char>, DocView>, id: Seq<char>, t: Seq<char>)
    requires
        docs.dom().finite(),
        docs.contains_key(id),
    ensures
        document_count(docs.remove(id), t) == document_count(docs, t) - (if docs[id].terms.contains(
            t,
        ) {
            1nat
        } else {
            0nat
        }),
{
    lemma_document_count_bound(docs, t);
    assert(containing(docs.remove(id), t) =~= containing(docs, t).remove(id));
}

/// Adding a document under a new id raises by one the count of each term it
/// contains and leaves the other counts alone.
pub proof fn lemma_document_count_insert(
    docs: Map<Seq<char>, DocView>,
    id: Seq<char>,
    doc: DocView,
    t: Seq<char>,
)
    requires
        docs.dom().finite(),
        !docs.contains_key(id),
    ensures
        document_count(docs.insert(id, doc), t) == document_count(docs, t) + (if doc.terms.contains(
            t,
        ) {
            1nat
        } else {
            0nat
        }),
{
    lemma_document_count_bound(docs, t);
    if doc.terms.contains(t) {
        assert(containing(docs.insert(id, doc), t) =~= containing(docs, t).insert(id));
    } else {
        assert(containing(docs.insert(id, doc), t) =~= containing(docs, t));
    }
}

/// Replacing the record of a document is removing it and adding the new
/// one: afterwards the count of a term is its count among the other
/// documents, plus one if the new record contains the term. The old record
/// has no part in it.
pub proof fn lemma_replace_counts(
    docs: Map<Seq<char>, DocView>,
    id: Seq<char>,
    doc: DocView,
    t: Seq<char>,
)
    requires
        docs.dom().finite(),
    ensures
        docs.insert(id, doc) == docs.remove(id).insert(id, doc),
        document_count(docs.insert(id, doc), t) == document_count(docs.remove(id), t) + (
        if doc.terms.contains(t) {
            1nat
        } else {
            0nat
        }),
{
    assert(docs.insert(id, doc) =~= docs.remove(id).insert(id, doc));
    lemma_document_count_insert(docs.remove(id), id, doc, t);
}

/// What a refresh did to the index.
#[derive(Clone, Copy, Debug, PartialEq, Eq, Structural)]
pub enum Refresh {
    /// The index already held a record at least as new; nothing changed.
    Unchanged,
    /// The document was new to the index.
    Added,
    /// The record of the document was replaced.
    Replaced,
}

/// The views of the records of a table of documents.
pub open spec fn record_views(documents: Map<Seq<char>, Doc>) -> Map<Seq<char>, DocView> {
    documents.map_values(|d: Doc| d@)
}

/// The counts of a tally as natural numbers.
pub open spec fn counts(tally: Map<Seq<char>, usize>) -> Map<Seq<char>, nat> {
    tally.map_values(|c: usize| c as nat)
}

/// The two tables belong together: every record is well formed, no count
/// is zero, and the count kept for a term is the number of documents that
/// contain it.
pub open spec fn in_step(documents: StrMap<Doc>, tally: StrMap<usize>) -> bool {
    &&& documents.wf()
    &&& tally.wf()
    &&& forall|id: Seq<char>| #[trigger] documents@.contains_key(id) ==> documents@[id].wf()
    &&& positive(tally@)
    &&& forall|t: Seq<char>| #[trigger]
        tally_of(tally@, t) == document_count(record_views(documents@), t)
}

/// The corpus index.
pub struct Index {
    documents: StrMap<Doc>,
    document_frequency: StrMap<usize>,
}

impl Index {
    /// The documents and the document-frequency table.
    pub closed spec fn view(&self) -> IndexView {
        IndexView {
            documents: record_views(self.documents@),
            document_frequency: counts(self.document_frequency@),
        }
    }

    /// Both tables are well-formed maps, every record is well formed, and
    /// the count kept for a term is the number of documents that contain it.
    /// Every index that a program holds is well formed.
    #[verifier::type_invariant]
    pub closed spec fn wf(&self) -> bool {
        in_step(self.documents, self.document_frequency)
    }

    /// The document ids in the order in which the index stores them:
    /// ascending.
    pub closed spec fn ids(&self) -> Seq<Seq<char>> {
        self.documents.key_seq()
    }

    /// `ids` lists every document once, in ascending order.
    pub proof fn lemma_ids(&self)
        requires
            self.wf(),
        ensures
            strictly_sorted(self.ids()),
            self.ids().no_duplicates(),
            self.ids().to_set() == self@.documents.dom(),
            self.ids().len() == self@.documents.dom().len(),
            self@.documents.dom().finite(),
    {
        self.documents.lemma_keys();
        assert(self@.documents.dom() =~= self.documents@.dom());
    }

    /// A well-formed index is consistent: its document-frequency table holds,
    /// for every term, the number of documents that contain the term.
    pub proof fn lemma_consistent(&self)
        requires
            self.wf(),
        ensures
            self@.consistent(),
    {
        self.documents.lemma_keys();
        assert(self@.documents.dom() =~= self.documents@.dom());
        let df = self@.document_frequency;
        let f = frequencies_of(self@.documents);
        assert forall|t: Seq<char>| df.contains_key(t) <==> f.contains_key(t) by {
            assert(tally_of(self.document_frequency@, t) == document_count(self@.documents, t));
        }
        assert forall|t: Seq<char>| df.contains_key(t) implies df[t] == f[t] by {
            assert(tally_of(self.document_frequency@, t) == document_count(self@.documents, t));
        }
        assert(df =~= f);
    }

    /// An index without documents.
    pub fn new() -> (index: Index)
        ensures
            index.wf(),
            index@.documents == Map::<Seq<char>, DocView>::empty(),
            index@.document_frequency == Map::<Seq<char>, nat>::empty(),
    {
        let documents: StrMap<Doc> = StrMap::new();
        let document_frequency: StrMap<usize> = StrMap::new();
        proof {
            assert forall|t: Seq<char>| #[trigger]
                tally_of(document_frequency@, t) == document_count(
                    record_views(documents@),
                    t,
                ) by {
                assert(containing(record_views(documents@), t) =~= Set::<Seq<char>>::empty());
            }
        }
        Index { documents, document_frequency }
    }

    /// The number of documents.
    pub fn len(&self) -> (n: usize)
        ensures
            n == self.ids().len(),
            n == self@.documents.dom().len(),
            self@.documents.dom().finite(),
    {
        proof {
            assert(self@.documents.dom() =~= self.documents@.dom());
        }
        self.documents.len()
    }

    /// The id of the document at position `i`.
    pub fn id_at(&self, i: usize) -> (id: &String)
        requires
            i < self.ids().len(),
        ensures
            id@ == self.ids()[i as int],
            self@.documents.contains_key(id@),
    {
        self.documents.key_at(i)
    }

    /// The record of the document at position `i`.
    pub fn doc_at(&self, i: usize) -> (doc: &Doc)
        requires
            i < self.ids().len(),
        ensures
            doc.wf(),
            doc@ == self@.documents[self.ids()[i as int]],
    {
        proof {
            use_type_invariant(self);
            self.documents.lemma_entry(i as int);
        }
        self.documents.value_at(i)
    }

    /// Whether the index holds a record for `id`.
    pub fn contains(&self, id: &str) -> (b: bool)
        ensures
            b == self@.documents.contains_key(id@),
    {
        self.documents.contains_key(id)
    }

    /// The record kept for `id`, if there is one.
    pub fn get(&self, id: &str) -> (doc: Option<&Doc>)
        ensures
            match doc {
                Some(d) => self@.documents.contains_key(id@) && d@ == self@.documents[id@]
                    && d.wf(),
                None => !self@.documents.contains_key(id@),
            },
    {
        proof {
            use_type_invariant(self);
        }
        self.documents.get(id)
    }

    /// The number of documents that contain `term`.
    pub fn document_frequency(&self, term: &str) -> (n: usize)
        ensures
            n == document_count(self@.documents, term@),
            n > 0 <==> self@.document_frequency.contains_key(term@),
            n > 0 ==> n == self@.document_frequency[term@],
    {
        proof {
            use_type_invariant(self);
            assert(tally_of(self.document_frequency@, term@) == document_count(
                self@.documents,
                term@,
            ));
        }
        match self.document_frequency.get(term) {
            Some(n) => *n,
            None => 0,
        }
    }

    /// The staleness test: whether the source of `id`, last modified at
    /// `source_modified`, has to be indexed again. It has to when the index
    /// holds no record for it or holds one built from an older source.
    pub fn should_reindex(&self, id: &str, source_modified: u64) -> (stale: bool)
        ensures
            stale == (!self@.documents.contains_key(id@) || self@.documents[id@].last_modified
                < source_modified),
    {
        match self.documents.get(id) {
            Some(doc) => doc.last_modified() < source_modified,
            None => true,
        }
    }

    /// Takes the record at position `i` out of the index and lowers the
    /// document frequency of each of its terms.
    fn remove_at(&mut self, i: usize) -> (gone: Doc)
        requires
            i < old(self).documents.key_seq().len(),
        ensures
            final(self).wf(),
            gone.wf(),
            gone@ == old(self)@.documents[old(self).documents.key_seq()[i as int]],
            final(self)@.documents == old(self)@.documents.remove(
                old(self).documents.key_seq()[i as int],
            ),
            final(self).documents.key_seq() == old(self).documents.key_seq().remove(i as int),
    {
        let ghost id = self.documents.key_seq()[i as int];
        let ghost before = self@.documents;
        proof {
            use_type_invariant(&*self);
            self.documents.lemma_keys();
            assert(before.dom() =~= self.documents@.dom());
        }
        // Both tables leave the index while they are out of step.
        let mut taken = Index::new();
        std::mem::swap(self, &mut taken);
        let Index { mut documents, mut document_frequency } = taken;
        let gone = documents.take_at(i);
        let table = gone.term_frequency();
        proof {
            assert(record_views(documents@) =~= before.remove(id));
            assert forall|t: Seq<char>| #[trigger]
                table@.contains_key(t) implies document_frequency@.contains_key(t) by {
                assert(containing(before, t).contains(id));
                lemma_document_count_bound(before, t);
                assert(tally_of(document_frequency@, t) == document_count(before, t));
            }
        }
        drop_terms(&mut document_frequency, table);
        proof {
            assert forall|t: Seq<char>| #[trigger]
                tally_of(document_frequency@, t) == document_count(before.remove(id), t) by {
                lemma_document_count_remove(before, id, t);
            }
        }
        *self = Index { documents, document_frequency };
        gone
    }

    /// Deletes the record of `id`, if there is one, and lowers the document
    /// frequency of each term that the record contains. Says whether there
    /// was a record.
    pub fn remove(&mut self, id: &str) -> (found: bool)
        ensures
            final(self).wf(),
            found == old(self)@.documents.contains_key(id@),
            final(self)@.documents == old(self)@.documents.remove(id@),
            final(self)@.document_frequency == frequencies_of(final(self)@.documents),
            !found ==> *final(self) == *old(self),
    {
        proof {
            use_type_invariant(&*self);
        }
        match self.documents.position(id) {
            Some(i) => {
                self.remove_at(i);
                proof {
                    self.lemma_consistent();
                }
                true
            },
            None => {
                proof {
                    self.lemma_consistent();
                }
                false
            },
        }
    }

    /// Stores `doc` as the record of `id`. A record that `id` already had is
    /// removed first, with its document frequencies; the new record then
    /// adds its own. The caller sees only the state after both steps.
    pub fn upsert(&mut self, id: String, doc: Doc)
        ensures
            final(self).wf(),
            final(self)@.documents == old(self)@.documents.insert(id@, doc@),
            final(self)@.document_frequency == frequencies_of(final(self)@.documents),
    {
        proof {
            use_type_invariant(&*self);
        }
        let at = match self.documents.find(id.as_str()) {
            Ok(i) => {
                // The place that the old record leaves is the slot of the new one.
                self.remove_at(i);
                i
            },
            Err(at) => at,
        };
        let ghost before = self@.documents;
        proof {
            use_type_invariant(&*self);
            use_type_invariant(&doc);
            self.documents.lemma_keys();
            assert(before.dom() =~= self.documents@.dom());
        }
        // Both tables leave the index while they are out of step.
        let mut taken = Index::new();
        std::mem::swap(self, &mut taken);
        let Index { mut documents, mut document_frequency } = taken;
        let ghost tally_before = document_frequency@;
        documents.insert_at(at, id, doc);
        let table = documents.value_at(at).term_frequency();
        proof {
            assert(record_views(documents@) =~= before.insert(id@, doc@));
            assert forall|t: Seq<char>| #[trigger] tally_of(tally_before, t) < usize::MAX by {
                lemma_document_count_bound(before, t);
            }
        }
        add_terms(&mut document_frequency, table);
        proof {
            assert forall|t: Seq<char>| #[trigger]
                tally_of(document_frequency@, t) == document_count(before.insert(id@, doc@), t) by {
                lemma_document_count_insert(before, id@, doc@, t);
            }
        }
        *self = Index { documents, document_frequency };
        proof {
            self.lemma_consistent();
        }
    }

    /// Re-indexes one document: stores `doc` as the record of `id` unless
    /// the index already holds a record of `id` that is at least as new.
    /// Re-indexing an unchanged document leaves the index exactly as it was.
    pub fn refresh(&mut self, id: String, doc: Doc) -> (outcome: Refresh)
        ensures
            final(self).wf(),
            final(self)@.document_frequency == frequencies_of(final(self)@.documents),
            match outcome {
                Refresh::Unchanged => {
                    &&& old(self)@.documents.contains_key(id@)
                    &&& old(self)@.documents[id@].last_modified >= doc@.last_modified
                    &&& *final(self) == *old(self)
                },
                Refresh::Added => {
                    &&& !old(self)@.documents.contains_key(id@)
                    &&& final(self)@.documents == old(self)@.documents.insert(id@, doc@)
                },
                Refresh::Replaced => {
                    &&& old(self)@.documents.contains_key(id@)
                    &&& old(self)@.documents[id@].last_modified < doc@.last_modified
                    &&& final(self)@.documents == old(self)@.documents.insert(id@, doc@)
                },
            },
    {
        let known = self.contains(id.as_str());
        if !self.should_reindex(id.as_str(), doc.last_modified()) {
            proof {
                use_type_invariant(&*self);
                self.lemma_consistent();
            }
            return Refresh::Unchanged;
        }
        self.upsert(id, doc);
        if known {
            Refresh::Replaced
        } else {
            Refresh::Added
        }
    }

    /// The reconciliation sweep of a re-index pass: deletes the record of
    /// every document whose id is not in `present`, the ids found in the
    /// source tree. Returns the number of records deleted.
    pub fn sweep(&mut self, present: &Vec<String>) -> (removed: usize)
        ensures
            final(self).wf(),
            final(self)@.documents == old(self)@.documents.restrict(
                present.deep_view().to_set(),
            ),
            final(self)@.document_frequency == frequencies_of(final(self)@.documents),
            removed == old(self)@.documents.dom().len() - final(self)@.documents.dom().len(),
    {
        proof {
            use_type_invariant(&*self);
        }
        let ghost keep = present.deep_view();
        let ghost start = self@.documents;
        let kept = id_table(present);
        let total = self.len();
        let mut removed: usize = 0;
        let mut i: usize = 0;
        while i < self.documents.len()
            invariant
                self.wf(),
                kept.wf(),
                forall|id: Seq<char>| #[trigger] kept@.contains_key(id) <==> keep.contains(id),
                i <= self.documents.key_seq().len(),
                removed + self.documents.key_seq().len() == total,
                forall|j: int| 0 <= j < i ==> keep.contains(#[trigger] self.documents.key_seq()[j]),
                forall|id: Seq<char>| #[trigger]
                    self@.documents.contains_key(id) ==> start.contains_key(id)
                        && self@.documents[id] == start[id],
                forall|id: Seq<char>|
                    start.contains_key(id) && keep.contains(id)
                        ==> #[trigger] self@.documents.contains_key(id),
            decreases self.documents.key_seq().len() - i,
        {
            if kept.contains_key(self.documents.key_at(i).as_str()) {
                i += 1;
            } else {
                self.remove_at(i);
                removed += 1;
            }
        }
        proof {
            self.lemma_ids();
            self.lemma_consistent();
        }
        removed
    }
}

impl Default for Index {
    /// An index without documents.
    fn default() -> (index: Index)
        ensures
            index.wf(),
            index@.documents == Map::<Seq<char>, DocView>::empty(),
            index@.document_frequency == Map::<Seq<char>, nat>::empty(),
    {
        Index::new()
    }
}

/// A table with one entry for each distinct string of `present`.
fn id_table(present: &Vec<String>) -> (table: StrMap<()>)
    ensures
        table.wf(),
        forall|id: Seq<char>| #[trigger] table@.contains_key(id) <==> present.deep_view().contains(id),
{
    let mut table: StrMap<()> = StrMap::new();
    let mut i: usize = 0;
    while i < present.len()
        invariant
            i <= present@.len(),
            table.wf(),
            forall|id: Seq<char>| #[trigger]
                table@.contains_key(id) <==> present.deep_view().take(i as int).contains(id),
        decreases present@.len() - i,
    {
        table.insert(present[i].clone(), ());
        i += 1;
        proof {
            let now = present.deep_view().take(i as int);
            assert forall|id: Seq<char>| #[trigger] table@.contains_key(id) <==> now.contains(id) by {
                if id == present.deep_view()[i - 1] {
                    assert(now[i - 1] == id);
                }
            }
        }
    }
    assert(present.deep_view().take(i as int) =~= present.deep_view());
    table
}

} // verus!
