//! Document data extraction library.
//!
//! The heart of the crate is a table-structure inference engine: given a raw
//! grid of cell strings taken from a word-processing table, it decides whether
//! the first row is a header, which cells form merged ranges, and what kind of
//! data each cell holds.  Around the engine stand the plain-value data models
//! of the document, spreadsheet, slide and page parsers, together with their
//! text, CSV, JSON, Markdown and HTML renderers, all implemented as pure,
//! verified string builders.

pub mod chars;
pub mod table_model;
pub mod classify;
pub mod wide;
pub mod header;
pub mod merge;
pub mod extract;
pub mod render;
pub mod doc_model;
pub mod doc_output;
pub mod ppt_model;
pub mod ppt_output;
pub mod excel;
pub mod pdf;
