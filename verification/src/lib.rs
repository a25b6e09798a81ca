//! Assembles a corpus of markdown documents, each carrying an embedded
//! metadata block, into an ordered, numbered table of contents and
//! per-document content with numbered page anchors and symbolic
//! cross-references rewritten into relative links.
use vstd::prelude::*;

pub mod config;
pub mod text;
pub mod events;
pub mod json;
pub mod metadata;
pub mod anchors;
pub mod links;
pub mod hierarchy;
pub mod preprocessor;

verus! {

/// Why a document could not be processed.
#[derive(PartialEq, Eq, Structural, Clone, Copy, Debug)]
pub enum MetaError {
    /// The document holds no fenced metadata block.
    MetadataMissing,
    /// The metadata block is not a well-formed metadata object.
    MetadataInvalid,
    /// The markdown serializer refused the document's event sequence.
    SerializeFailed,
}

} // verus!
