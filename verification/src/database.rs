//! Value types exchanged with the durable document store.
//!
//! The store itself (a relational database reached over a connection pool) is
//! an external collaborator: only these plain snapshot and metadata values
//! cross the boundary into the verified core.

use vstd::prelude::*;

verus! {

/// A document snapshot as persisted in durable storage: the latest text
/// together with the editor language hint, if one was ever set.
pub struct PersistedDocument {
    /// Text content of the document.
    pub text: String,
    /// Language of the document for editor syntax highlighting.
    pub language: Option<String>,
}

/// Lightweight document metadata used when listing documents.
pub struct DocumentMeta {
    /// Unique document identifier.
    pub id: String,
    /// Optional document name.
    pub name: Option<String>,
    /// Language of the document for editor syntax highlighting.
    pub language: Option<String>,
    /// Timestamp when the document was created, in seconds since the epoch.
    pub created_at: i64,
    /// Timestamp when the document was last updated, in seconds since the epoch.
    pub updated_at: i64,
}

} // verus!
