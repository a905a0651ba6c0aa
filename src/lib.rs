//! A streaming template engine for word-processing document packages: placeholders in the
//! document body are filled from structured data, tables are expanded row by row with
//! vertical cell merges, and base64 image payloads become inline drawings.
pub mod buffer;
pub mod engine;
pub mod flatten_shapes;
pub mod handler;
pub mod image;
pub mod merge;
pub mod package;
pub mod rels;
pub mod sniff;
pub mod table;
pub mod template;
pub mod text;
pub mod value;
