//! Release model: albums, movies, TV series, etc.

use vstd::prelude::*;
use crate::identity::{content_id_spec, generate_content_id, is_lower_hex};

verus! {

/// A release in the Lens ecosystem: any distributable content unit (music
/// album, movie, TV series, book, game, ...).
#[derive(Debug, Clone, PartialEq)]
pub struct Release {
    /// Unique identifier (Blake3 hash of content)
    pub id: String,
    /// Human-readable title
    pub title: String,
    /// Creator/artist/director
    pub creator: Option<String>,
    /// Release year
    pub year: Option<u32>,
    /// Category ID (links to Category)
    pub category_id: String,
    /// Content Identifier (CID) for thumbnail image
    pub thumbnail_cid: Option<String>,
    /// Description/synopsis
    pub description: Option<String>,
    /// Tags for categorization and search
    pub tags: Vec<String>,
    /// Schema version for forward compatibility
    pub schema_version: String,
}

/// The schema version written by this library.
pub open spec fn schema_version_spec() -> Seq<char> {
    "1.0.0"@
}

/// The current schema version, `1.0.0`.
pub fn default_schema_version() -> (v: String)
    ensures
        v@ == schema_version_spec(),
{
    String::from_str("1.0.0")
}

impl Release {
    /// Create a new release with the required fields; the rest are empty.
    pub fn new(id: String, title: String, category_id: String) -> (r: Release)
        ensures
            r.id == id,
            r.title == title,
            r.category_id == category_id,
            r.creator is None,
            r.year is None,
            r.thumbnail_cid is None,
            r.description is None,
            r.tags@.len() == 0,
            r.schema_version@ == schema_version_spec(),
    {
        Release {
            id,
            title,
            creator: None,
            year: None,
            category_id,
            thumbnail_cid: None,
            description: None,
            tags: Vec::new(),
            schema_version: default_schema_version(),
        }
    }

    /// Generate an ID from a content hash: the hex BLAKE3 digest of `content`.
    pub fn generate_id(content: &[u8]) -> (id: String)
        ensures
            id@ == content_id_spec(content@),
            id@.len() == 64,
            is_lower_hex(id@),
    {
        generate_content_id(content)
    }
}

} // verus!
