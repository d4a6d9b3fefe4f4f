//! Authentication.
//!
//! Clients send tokens that their identity provider signed; nodes sign requests to each
//! other with a shared secret.

pub mod claims;
pub mod errors;
pub mod hmac_auth;
pub mod jwt;
pub mod laws;
pub mod verify;
