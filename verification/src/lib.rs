//! Verified core of a validator for line-delimited tabular (CSV-like) text.
//!
//! The crate tokenizes rows into fields (honouring quoting and escaped
//! quotes), infers field separators from a sample, runs rows through a
//! pipeline of validators that may repair them, and groups rows into
//! memory-bounded batches whose outputs preserve the input order.

pub mod bytes;
pub mod config;
pub mod infer;
pub mod issue;
pub mod line_validators;
pub mod matcher;
pub mod pipeline;
pub mod text;
pub mod tokenizer;
pub mod validators;
