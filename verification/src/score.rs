//! The integer side of TF-IDF scoring.
//!
//! The score of a document for a query is the sum, over the query's terms,
//! of `tf * idf`, where `tf` is the share of the document's terms that are
//! the query term and `idf` is the base-2 logarithm of the ratio between the
//! number of documents and the number of those that contain the term. The
//! logarithm is floating-point work and is left to the caller. This module
//! provides the two ratios as integers, arranged so that neither denominator
//! is ever zero and the second ratio is never below one.

use crate::document::{Doc, DocView};
use crate::error::QueryError;
use crate::index::{lemma_document_count_bound, Index, IndexView};
use crate::lexer::{tokenize, tokens};
use crate::text::{chars_of, string_from_utf8};
use vstd::prelude::*;
use vstd::utf8::{decode_utf8, valid_utf8};

verus! {

/// The two ratios behind one summand of a score: the term frequency
/// `occurrences / term_count` and the inverse-document-frequency ratio
/// `documents / document_frequency`.
#[derive(Clone, Copy, Debug, PartialEq, Eq, Structural)]
pub struct Weight {
    /// How often the term occurs in the document.
    pub occurrences: usize,
    /// The number of terms of the document, or 1 for a document without
    /// terms.
    pub term_count: usize,
    /// The number of documents in the corpus.
    pub documents: usize,
    /// The number of documents that contain the term, or 1 for a term that
    /// no document contains.
    pub document_frequency: usize,
}

/// The ratios of one document for every term of a query.
#[derive(Debug, PartialEq, Eq)]
pub struct DocWeights {
    /// The document id.
    pub id: String,
    /// One entry for each term of the query, in the order of the query.
    pub weights: Vec<Weight>,
}

/// The numerator of the term frequency: the occurrences of `term` in `doc`.
pub open spec fn tf_numerator(doc: DocView, term: Seq<char>) -> nat {
    doc.terms.count(term)
}

/// The denominator of the term frequency: the number of terms of `doc`. For
/// a document without terms it is 1, which makes every term frequency of
/// such a document zero.
pub open spec fn tf_denominator(doc: DocView) -> nat {
    if doc.terms.len() == 0 {
        1
    } else {
        doc.terms.len()
    }
}

/// The numerator of the idf ratio: the number of documents.
pub open spec fn idf_numerator(index: IndexView) -> nat {
    index.documents.dom().len()
}

/// The denominator of the idf ratio: the document frequency of `term`, or 1
/// for a term without one.
pub open spec fn idf_denominator(index: IndexView, term: Seq<char>) -> nat {
    if index.document_frequency.contains_key(term) {
        index.document_frequency[term]
    } else {
        1
    }
}

/// The ratios of `term` for `doc` in `index`.
pub open spec fn weight_matches(w: Weight, index: IndexView, doc: DocView, term: Seq<char>) -> bool {
    &&& w.occurrences == tf_numerator(doc, term)
    &&& w.term_count == tf_denominator(doc)
    &&& w.documents == idf_numerator(index)
    &&& w.document_frequency == idf_denominator(index, term)
}

/// The ratios of each term of `query` for `doc`, in the order of the query.
pub open spec fn weights_match(
    ws: Seq<Weight>,
    index: IndexView,
    doc: DocView,
    query: Seq<Seq<char>>,
) -> bool {
    &&& ws.len() == query.len()
    &&& forall|j: int| 0 <= j < ws.len() ==> weight_matches(#[trigger] ws[j], index, doc, query[j])
}

/// The ratios of a consistent index are safe to divide and to take the
/// logarithm of: no denominator is zero, the occurrences do not exceed the
/// term count, and at least as many documents exist as contain the term.
pub proof fn lemma_ratios_in_range(index: IndexView, id: Seq<char>, term: Seq<char>)
    requires
        index.consistent(),
        index.documents.contains_key(id),
    ensures
        tf_denominator(index.documents[id]) >= 1,
        tf_numerator(index.documents[id], term) <= tf_denominator(index.documents[id]),
        1 <= idf_denominator(index, term) <= idf_numerator(index),
{
    lemma_document_count_bound(index.documents, term);
}

/// A document without terms has the term frequency zero for every term:
/// its numerator is 0 over the denominator 1.
pub proof fn lemma_empty_document_scores_zero(doc: DocView, term: Seq<char>)
    requires
        doc.terms.len() == 0,
    ensures
        tf_numerator(doc, term) == 0,
        tf_denominator(doc) == 1,
{
}

/// A term that every document contains has the idf ratio `N / N`, whose
/// logarithm is zero.
pub proof fn lemma_ubiquitous_term(index: IndexView, term: Seq<char>)
    requires
        index.consistent(),
        index.documents.dom().len() > 0,
        forall|id: Seq<char>| #[trigger]
            index.documents.contains_key(id) ==> index.documents[id].terms.contains(term),
    ensures
        idf_denominator(index, term) == idf_numerator(index),
{
    assert(crate::index::containing(index.documents, term) =~= index.documents.dom());
}

impl Index {
    /// The ratios of `term` for the record `doc`.
    pub fn weight(&self, doc: &Doc, term: &str) -> (w: Weight)
        ensures
            weight_matches(w, self@, doc@, term@),
    {
        let count = doc.count();
        let frequency = self.document_frequency(term);
        Weight {
            occurrences: doc.frequency(term),
            term_count: if count == 0 {
                1
            } else {
                count
            },
            documents: self.len(),
            document_frequency: if frequency == 0 {
                1
            } else {
                frequency
            },
        }
    }

    /// The ratios of every term of `query` for the document at position
    /// `i`, in the order of the query.
    pub fn weights_at(&self, i: usize, query: &Vec<String>) -> (ws: Vec<Weight>)
        requires
            i < self.ids().len(),
        ensures
            weights_match(ws@, self@, self@.documents[self.ids()[i as int]], query.deep_view()),
    {
        let doc = self.doc_at(i);
        let mut ws: Vec<Weight> = Vec::new();
        let mut j: usize = 0;
        while j < query.len()
            invariant
                j <= query@.len(),
                ws@.len() == j,
                forall|k: int|
                    0 <= k < j ==> weight_matches(
                        #[trigger] ws@[k],
                        self@,
                        doc@,
                        query.deep_view()[k],
                    ),
            decreases query@.len() - j,
        {
            let w = self.weight(doc, query[j].as_str());
            ws.push(w);
            j += 1;
        }
        ws
    }
    /// The ratios of every document for every term of `query`: one entry
    /// for each document, in the order of `ids`. An index without documents
    /// gives an empty list.
    pub fn weigh(&self, query: &Vec<String>) -> (all: Vec<DocWeights>)
        ensures
            all@.len() == self.ids().len(),
            forall|i: int|
                0 <= i < all@.len() ==> {
                    &&& (#[trigger] all@[i]).id@ == self.ids()[i]
                    &&& weights_match(
                        all@[i].weights@,
                        self@,
                        self@.documents[self.ids()[i]],
                        query.deep_view(),
                    )
                },
    {
        let n = self.len();
        let mut all: Vec<DocWeights> = Vec::new();
        let mut i: usize = 0;
        while i < n
            invariant
                n == self.ids().len(),
                i <= n,
                all@.len() == i,
                forall|k: int|
                    0 <= k < i ==> {
                        &&& (#[trigger] all@[k]).id@ == self.ids()[k]
                        &&& weights_match(
                            all@[k].weights@,
                            self@,
                            self@.documents[self.ids()[k]],
                            query.deep_view(),
                        )
                    },
            decreases n - i,
        {
            let id = self.id_at(i).clone();
            let weights = self.weights_at(i, query);
            all.push(DocWeights { id, weights });
            i += 1;
        }
        all
    }
}

/// The terms of a query: the query is tokenized exactly as documents are.
pub fn query_terms(query: &str) -> (terms: Vec<String>)
    ensures
        terms.deep_view() == tokens(query@),
{
    let content = chars_of(query);
    tokenize(content.as_slice())
}

/// The terms of a query that arrives as the raw body of a request. A body
/// that is not UTF-8 is no query.
pub fn parse_query(body: Vec<u8>) -> (parsed: Result<Vec<String>, QueryError>)
    ensures
        match parsed {
            Ok(terms) => valid_utf8(body@) && terms.deep_view() == tokens(decode_utf8(body@)),
            Err(e) => !valid_utf8(body@) && e == QueryError::NotUtf8,
        },
{
    match string_from_utf8(body) {
        Some(query) => Ok(query_terms(query.as_str())),
        None => Err(QueryError::NotUtf8),
    }
}

} // verus!
