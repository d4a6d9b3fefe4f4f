//! Envelope encryption for segments.
//!
//! Each segment gets its own data key, which is wrapped by a root key: in production one
//! that a key service holds, in single-node deployments a static one. Data key and payload
//! are both encrypted with AES-256-GCM under fresh nonces.

pub mod envelope;
pub mod laws;
pub mod root;
