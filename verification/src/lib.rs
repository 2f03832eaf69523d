//! A verified parser and lint pass for plain-text ledger files.
//!
//! The grammar is an indentation-sensitive, line-oriented format: top-level
//! `account` / `commodity` / `tag` declarations with indented metadata
//! lines, and dated transactions with indented postings, separated by
//! blank lines.  Every scanner and production consumes a prefix of its
//! input and returns the typed value with the unconsumed remainder, or a
//! structured error; `document::parse_document` drives them over a whole
//! file.  Each one carries a contract that pins its result to a
//! mathematical description of the grammar.
//!
//! The lint pass in `lint` is a separate, line-oriented scan over the same
//! text: it never parses the grammar, only classifies raw lines.

pub mod account;
pub mod account_declaration;
pub mod amount;
pub mod chars;
pub mod cli;
pub mod commodity;
pub mod commodity_declaration;
pub mod date;
pub mod declaration;
pub mod document;
pub mod error;
pub mod guards;
pub mod identifier;
pub mod lint;
pub mod posting;
pub mod tag;
pub mod tag_declaration;
pub mod transaction;
pub mod transaction_header;
