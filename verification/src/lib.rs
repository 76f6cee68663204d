//! Field extraction from delimited text.
//!
//! The input is read record by record. A record is cut into fields by a
//! literal delimiter or by the quoting rules of CSV and TSV, a selection
//! picks fields by their 1-based positions, and the picked fields are joined
//! into a line of output. A driver decides the course of a run over its
//! sources, and leaves the work on files and streams to its caller.
//!
//! The functions here are verified against mathematical models of the bytes
//! that they read and write. What is taken on trust of the `getopts` crate,
//! which reads the command line, is declared in `options`.

pub mod error;
pub mod text;
pub mod split;
pub mod selection;
pub mod quoted;
pub mod mode;
pub mod reader;
pub mod writer;
pub mod pipeline;
pub mod driver;
pub mod options;
pub mod config;
