//! Snapshots: an index as plain values, and back.
//!
//! A snapshot lists the documents of an index with what their records hold.
//! It is what a persistence layer writes and reads. The document-frequency
//! table is not part of it: it follows from the documents and is rebuilt on
//! the way back. Taking a snapshot and restoring it gives an index with the
//! same view, and so with the same scores.

use crate::document::{part_keys, part_values, parts_bag, parts_error, Doc, DocView};
use crate::error::PersistenceError;
use crate::index::{frequencies_of, Index};
use crate::score::{weight_matches, Weight};
use crate::strmap::{lemma_seq_map_push, seq_map, StrMap};
use vstd::prelude::*;

verus! {

/// One document of a snapshot.
#[derive(Debug, PartialEq, Eq)]
pub struct DocSnapshot {
    /// The document id.
    pub id: String,
    /// The distinct terms of the document, each with its frequency.
    pub terms: Vec<(String, usize)>,
    /// The number of terms of the document.
    pub count: usize,
    /// Modification time of the source when the record was built.
    pub last_modified: u64,
}

/// The ids of a snapshot, in its order.
pub open spec fn snapshot_ids(snap: Seq<DocSnapshot>) -> Seq<Seq<char>> {
    Seq::new(snap.len(), |i: int| snap[i].id@)
}

/// The record that one document of a snapshot describes.
pub open spec fn snapshot_record(doc: DocSnapshot) -> DocView {
    DocView { terms: parts_bag(doc.terms@), last_modified: doc.last_modified as nat }
}

/// The records of a snapshot, in its order.
pub open spec fn snapshot_records(snap: Seq<DocSnapshot>) -> Seq<DocView> {
    Seq::new(snap.len(), |i: int| snapshot_record(snap[i]))
}

/// The documents that a snapshot with distinct ids describes.
pub open spec fn snapshot_documents(snap: Seq<DocSnapshot>) -> Map<Seq<char>, DocView> {
    seq_map(snapshot_ids(snap), snapshot_records(snap))
}

/// The fault of the first document, from position `from` on, whose parts do
/// not make a record.
pub open spec fn first_part_error(snap: Seq<DocSnapshot>, from: int) -> Option<PersistenceError>
    decreases snap.len() - from,
{
    if from < 0 || from >= snap.len() {
        None
    } else {
        match parts_error(snap[from].terms@, snap[from].count) {
            Some(e) => Some(e),
            None => first_part_error(snap, from + 1),
        }
    }
}

/// What is wrong with a snapshot, if anything: the fault of the first
/// document whose parts do not make a record, or else an id that occurs
/// twice.
pub open spec fn snapshot_error(snap: Seq<DocSnapshot>) -> Option<PersistenceError> {
    match first_part_error(snap, 0) {
        Some(e) => Some(e),
        None => if snapshot_ids(snap).no_duplicates() {
            None
        } else {
            Some(PersistenceError::DuplicateDocument)
        },
    }
}

/// A prefix without faulty parts does not change which fault is first.
proof fn lemma_first_part_error_skip(snap: Seq<DocSnapshot>, i: int)
    requires
        0 <= i <= snap.len(),
        forall|j: int| 0 <= j < i ==> parts_error(#[trigger] snap[j].terms@, snap[j].count) is None,
    ensures
        first_part_error(snap, 0) == first_part_error(snap, i),
    decreases i,
{
    if i > 0 {
        lemma_first_part_error_skip(snap, i - 1);
    }
}

/// The `(term, frequency)` pairs of a frequency table, in its order.
fn table_parts(table: &StrMap<usize>) -> (parts: Vec<(String, usize)>)
    ensures
        part_keys(parts@) == table.key_seq(),
        part_values(parts@) == table.value_seq(),
{
    proof {
        use_type_invariant(table);
    }
    let mut parts: Vec<(String, usize)> = Vec::new();
    let n = table.len();
    let mut j: usize = 0;
    while j < n
        invariant
            table.wf(),
            n == table.key_seq().len(),
            j <= n,
            parts@.len() == j,
            part_keys(parts@) == table.key_seq().take(j as int),
            part_values(parts@) == table.value_seq().take(j as int),
        decreases n - j,
    {
        let term = table.key_at(j).clone();
        let frequency = *table.value_at(j);
        parts.push((term, frequency));
        j += 1;
    }
    parts
}

impl Index {
    /// The documents of the index as plain values.
    pub fn snapshot(&self) -> (snap: Vec<DocSnapshot>)
        ensures
            snapshot_error(snap@) is None,
            snapshot_ids(snap@) == self.ids(),
            snapshot_documents(snap@) == self@.documents,
    {
        let mut snap: Vec<DocSnapshot> = Vec::new();
        let n = self.len();
        let mut i: usize = 0;
        proof {
            use_type_invariant(self);
            self.lemma_ids();
        }
        while i < n
            invariant
                self.wf(),
                n == self.ids().len(),
                i <= n,
                snap@.len() == i,
                snapshot_ids(snap@) == self.ids().take(i as int),
                forall|j: int|
                    0 <= j < i ==> parts_error(#[trigger] snap@[j].terms@, snap@[j].count) is None,
                forall|j: int|
                    0 <= j < i ==> snapshot_record(#[trigger] snap@[j])
                        == self@.documents[self.ids()[j]],
            decreases n - i,
        {
            let id = self.id_at(i).clone();
            let doc = self.doc_at(i);
            let table = doc.term_frequency();
            let terms = table_parts(table);
            proof {
                let values = table.value_seq();
                assert(!values.contains(0)) by {
                    if values.contains(0) {
                        let j = values.index_of(0);
                        table.lemma_entry(j);
                    }
                }
            }
            let entry = DocSnapshot {
                id,
                terms,
                count: doc.count(),
                last_modified: doc.last_modified(),
            };
            snap.push(entry);
            i += 1;
        }
        proof {
            assert(self.ids().take(n as int) =~= self.ids());
            lemma_first_part_error_skip(snap@, n as int);
        }
        snap
    }

    /// Rebuilds an index from a snapshot. The snapshot is checked;
    /// `snapshot_error` says which fault is reported.
    pub fn restore(snap: &Vec<DocSnapshot>) -> (made: Result<Index, PersistenceError>)
        ensures
            match made {
                Ok(index) => {
                    &&& snapshot_error(snap@) is None
                    &&& index.wf()
                    &&& index@.documents == snapshot_documents(snap@)
                    &&& index@.document_frequency == frequencies_of(index@.documents)
                },
                Err(e) => snapshot_error(snap@) == Some(e),
            },
    {
        let ghost ids = snapshot_ids(snap@);
        let ghost records = snapshot_records(snap@);
        let mut index = Index::new();
        let mut duplicate: bool = false;
        let mut i: usize = 0;
        while i < snap.len()
            invariant
                ids == snapshot_ids(snap@),
                records == snapshot_records(snap@),
                i <= snap@.len(),
                index.wf(),
                forall|j: int|
                    0 <= j < i ==> parts_error(#[trigger] snap@[j].terms@, snap@[j].count) is None,
                duplicate ==> !ids.no_duplicates(),
                !duplicate ==> ids.take(i as int).no_duplicates(),
                !duplicate ==> index@.documents == seq_map(
                    ids.take(i as int),
                    records.take(i as int),
                ),
            decreases snap@.len() - i,
        {
            let entry = &snap[i];
            match Doc::from_parts(&entry.terms, entry.count, entry.last_modified) {
                Err(e) => {
                    proof {
                        lemma_first_part_error_skip(snap@, i as int);
                    }
                    return Err(e);
                },
                Ok(doc) => {
                    if !duplicate {
                        if index.contains(entry.id.as_str()) {
                            proof {
                                let j = ids.take(i as int).index_of(entry.id@);
                                assert(ids[j] == ids[i as int]);
                            }
                            duplicate = true;
                        } else {
                            proof {
                                lemma_seq_map_push(
                                    ids.take(i as int),
                                    records.take(i as int),
                                    ids[i as int],
                                    records[i as int],
                                );
                                assert(ids.take(i as int).push(ids[i as int]) =~= ids.take(i + 1));
                            }
                            index.upsert(entry.id.clone(), doc);
                        }
                    }
                },
            }
            i += 1;
        }
        proof {
            lemma_first_part_error_skip(snap@, i as int);
            assert(ids.take(i as int) =~= ids);
        }
        if duplicate {
            return Err(PersistenceError::DuplicateDocument);
        }
        proof {
            index.lemma_consistent();
        }
        Ok(index)
    }
}

/// Round trip: an index restored from a snapshot of an index has the same
/// documents and the same document frequencies as that index, and
/// therefore gives every document the same ratios for every term.
pub proof fn lemma_round_trip(index: Index, snap: Seq<DocSnapshot>, restored: Index)
    requires
        index.wf(),
        restored.wf(),
        snapshot_documents(snap) == index@.documents,
        restored@.documents == snapshot_documents(snap),
    ensures
        restored@ == index@,
        forall|w: Weight, id: Seq<char>, term: Seq<char>|
            weight_matches(w, restored@, restored@.documents[id], term) == weight_matches(
                w,
                index@,
                index@.documents[id],
                term,
            ),
{
    index.lemma_consistent();
    restored.lemma_consistent();
}

} // verus!
