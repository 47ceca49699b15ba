//! Structural chunking of source files and the batching rules of a
//! code-search index: which fragments of a file are indexed, under which
//! identifiers they are stored, and how a store's answer becomes a result list.
//!
//! - [`language`] decides from a path whether a file has a grammar.
//! - [`parse`] and [`syntax`] turn bytes into a syntax tree held as plain data.
//! - [`extract`] cuts the declarations of a tree, or a whole file, into chunks.
//! - [`ingest`] gathers chunks into batches and numbers the records sent.
//! - [`query`] reads the store's answer to a query.
//! - [`mode`] reads what an invocation is asked to do.
//!
//! The embedding service and the vector store are not called from here:
//! the pipeline says what is to be sent, and the caller sends it.

pub mod extract;
pub mod ingest;
pub mod language;
pub mod mode;
pub mod parse;
pub mod query;
pub mod syntax;
pub mod text;
