//! Library for filtering delimited text (CSV) data.
//!
//! The crate models a small row-filtering engine: a header line is mapped to
//! column positions, per-row predicates are evaluated across one or more
//! (column, value) pairs, and the matching rows are collected in order, ready
//! to be rendered back into delimited text.  Multi-file input is supported by
//! validating that every file shares one header and concatenating the files
//! into a single logical line stream.
//!
//! All functions here work on plain values (strings and vectors of strings);
//! opening files, expanding glob patterns and writing output are left to the
//! callers that drive the engine.

pub mod text;
pub mod reader;
pub mod manipulation;
pub mod writer;
pub mod stdin_parser;
