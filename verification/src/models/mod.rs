//! Content models of the Lens ecosystem: categories, releases and metadata.

pub mod category;
pub mod metadata;
pub mod release;
