//! Per-note metadata: the record a key-value metadata store would hold
//! for each note, keyed by canonical id. The store itself is an external
//! collaborator; only the record's shape is part of the core.

use vstd::prelude::*;

verus! {

/// The metadata kept for one note.
#[derive(Debug)]
pub struct NoteMetadata {
    pub tags: Vec<String>,
    pub backlinks: Vec<String>,
    pub created_at: String,
    pub updated_at: String,
}

} // verus!
