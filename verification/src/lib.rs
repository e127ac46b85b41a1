//! Delimited-text (CSV-like) parsing, per-column schema inference, and a
//! chunk-fed streaming session that handles records split across chunks.
//!
//! The tokenizer honours a configurable single-character delimiter, quoted
//! fields (with doubled-quote escaping), and LF / CR / CRLF row terminators.
//! Parsing is lenient: malformed input degrades to fewer rows or a higher
//! null ratio, never to an error.

pub mod classify;
pub mod parse;
pub mod schema;
pub mod stream;
mod text;
pub mod tokenizer;

pub use classify::ColumnType;
pub use parse::{parse_csv, ParsedResult, Row};
pub use schema::{infer_schema, SchemaField};
pub use stream::StreamingParser;
