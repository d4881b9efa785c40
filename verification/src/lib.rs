//! An evaluator for a small relational-algebra query language.
//!
//! A line of text is lexed into tokens, parsed into a table-valued
//! expression tree (with embedded boolean/scalar condition trees), and
//! evaluated against a store of named in-memory tables.  Every value is a
//! string; a table is a header row followed by data rows, all of one width.

pub mod tokenizer;
pub mod errors;
pub mod strings;
pub mod condition;
pub mod table;
pub mod parser;
pub mod ingest;
pub mod laws;
