//! Multi-node coordination.
//!
//! Every node can serve every read, because the data lies in shared object storage.
//! Sharding decides which node coordinates the queries and takes the writes of a tenant's
//! partition.

pub mod expr_laws;
pub mod merge;
pub mod merge_laws;
pub mod node;
pub mod node_laws;
pub mod registry;
pub mod remote;
pub mod route_laws;
pub mod router;
pub mod shard;
pub mod shard_laws;
