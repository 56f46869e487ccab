//! A full-text search index over HTML documents, ranked by TF-IDF.
//!
//! The crate is organised leaf-first:
//!
//! - `chars`, `text`, `order`, `stem`: characters, strings, their order, and
//!   the stemmer;
//! - `lexer`: text in, normalised terms out;
//! - `strmap`, `tally`: the sorted tables that everything is kept in;
//! - `document`: the record of one document;
//! - `index`: the corpus, with the document frequency of every term, kept
//!   consistent by every operation;
//! - `extract`: from an HTML page to a record;
//! - `score`, `rank`, `search`: the integer side of TF-IDF, the ranking of
//!   hits, and the two put together;
//! - `snapshot`: an index as plain values, for persistence;
//! - `route`: what the server does with a request;
//! - `error`: the errors.
//!
//! Floating-point arithmetic, files, HTTP and threads are the caller's.

pub mod chars;
pub mod document;
pub mod error;
pub mod extract;
pub mod index;
pub mod lexer;
pub mod order;
pub mod rank;
pub mod route;
pub mod score;
pub mod search;
pub mod snapshot;
pub mod stem;
pub mod strmap;
pub mod tally;
pub mod text;

pub use crate::document::Doc;
pub use crate::index::Index;
pub use crate::lexer::Lexer;
