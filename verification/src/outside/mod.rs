//! The calls into other crates, each behind one item whose contract states what the
//! crate's documentation or source shows.

pub mod aead;
pub mod bitmaps;
pub mod codecs;
pub mod debug;
pub mod hashes;
pub mod ids;
pub mod json;
pub mod mac;
pub mod tokens;
pub mod urls;
pub mod uuids;
pub mod wiping;
