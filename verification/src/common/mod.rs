//! Types, errors and configuration shared by the whole crate.

pub mod config;
pub mod errors;
pub mod laws;
pub mod record;
pub mod schema;
pub mod time;
pub mod types;
