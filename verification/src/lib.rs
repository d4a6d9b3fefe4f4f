//! ZenithDB: the storage core of a trace database.

pub mod auth;
pub mod bench;
pub mod catalog;
pub mod chars;
pub mod cli;
pub mod cluster;
pub mod common;
pub mod compactor;
pub mod compress;
pub mod cursor;
pub mod crypto;
pub mod format;
pub mod fts;
pub mod intern;
pub mod order;
pub mod outside;
pub mod rows;
pub mod text;
pub mod wire;
