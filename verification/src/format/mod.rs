//! The segment file format.
//!
//! A segment is one immutable object on object storage:
//!
//! ```text
//! [Magic header][Metadata len + bytes][Row groups][Inline indexes][Hotcache][Footer][Magic trailer]
//! ```

pub mod footer;
pub mod hotcache;
pub mod layout_laws;
pub mod magic;
pub mod meta;
pub mod page;
pub mod page_laws;
pub mod page_view;
pub mod read_laws;
pub mod reader;
pub mod row_group;
pub mod segment_laws;
pub mod writer;
pub mod zone_map;
