//! Extraction of plain text from PDF documents, serialized as a JSON
//! envelope.
//!
//! The PDF object model itself (cross-reference tables, content streams,
//! glyph decoding) is the business of the `lopdf` crate; this library
//! contributes the verified orchestration around it: the per-page
//! extraction loop with its skip-on-failure policy, the input-path
//! check, the JSON envelope that the command-line driver writes, and
//! the error taxonomy.

pub mod errors;
pub mod extract;
pub mod json;
pub mod parser;
pub mod pdf;
