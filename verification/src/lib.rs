//! Verified core of a delimited-text (CSV/TSV-like) query tool.
//!
//! The library turns a byte stream into an ordered sequence of records under
//! a configurable single-byte delimiter with standard double-quote quoting,
//! and executes one of four query modes over that sequence: count the
//! records, print the header row, project a single field by index from every
//! record, or dump every record in full.

pub mod record;
pub mod parse;
pub mod reader;
pub mod query;
pub mod laws;
