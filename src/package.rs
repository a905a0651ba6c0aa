//! The fixed paths of the package entries that the engine reads and writes.
use vstd::prelude::*;
use vstd::string::StringExecFns;

verus! {

/// The document body.
pub const DOCUMENT_XML_PATH: &'static str = "word/document.xml";

/// The body's relationship document.
pub const RELS_PATH: &'static str = "word/_rels/document.xml.rels";

/// The directory of new media.
pub const MEDIA_PATH_PREFIX: &'static str = "word/media/";

/// What a package entry is to the engine.
#[derive(Debug, Clone, Copy, PartialEq, Eq, Structural)]
pub enum EntryKind {
    /// The document body, rewritten.
    Body,
    /// The body's relationship document, extended with new images.
    Relationships,
    /// Anything else, copied through.
    Other,
}

/// The kind of the entry at `path`.
pub open spec fn entry_kind(path: Seq<char>) -> EntryKind {
    if path == DOCUMENT_XML_PATH@ {
        EntryKind::Body
    } else if path == RELS_PATH@ {
        EntryKind::Relationships
    } else {
        EntryKind::Other
    }
}

/// The kind of the entry at `path`.
pub fn classify_entry(path: &str) -> (r: EntryKind)
    ensures
        r == entry_kind(path@),
{
    let p = String::from_str(path);
    if p == String::from_str(DOCUMENT_XML_PATH) {
        EntryKind::Body
    } else if p == String::from_str(RELS_PATH) {
        EntryKind::Relationships
    } else {
        EntryKind::Other
    }
}

/// Where a new image file is stored in the package.
pub fn media_path(filename: &str) -> (r: String)
    ensures
        r@ == MEDIA_PATH_PREFIX@ + filename@,
{
    let mut p = String::from_str(MEDIA_PATH_PREFIX);
    p.append(filename);
    p
}

} // verus!
