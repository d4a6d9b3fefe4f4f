//! Compaction: write-ahead-log rows and older segments become sealed segments in which
//! the spans of a trace lie together.

pub mod batch;
pub mod batch_laws;
pub mod wal_meta;
pub mod key;
pub mod merge;
pub mod merge_laws;
pub mod columns;
pub mod zones;
pub mod zone_laws;
pub mod groups;
pub mod meta_laws;
pub mod assembly;
pub mod builder;
pub mod decode;
pub mod sources;
pub mod source_laws;
pub mod stream_laws;
pub mod streaming;
pub mod build_laws;
pub mod decode_laws;
pub mod field_laws;
pub mod sparse;
pub mod bounds_laws;
pub mod runner;
pub mod run_laws;
