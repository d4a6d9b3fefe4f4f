//! Catalog: which log objects, segments, leases and nodes there are.
//!
//! The catalog is a small index; segments hold the truth.

pub mod codec;
pub mod laws;
pub mod mock;
pub mod model;
pub mod row_laws;
pub mod stored;
