//! Decisions of the administrative commands.
pub mod flush;
pub mod laws;
pub mod restore;
