//! Full-text search embedded in a segment: what is indexed, how the index's files are packed
//! into one blob, and the row mask that a search gives.
pub mod blob;
pub mod documents;
pub mod laws;
pub mod mask;
