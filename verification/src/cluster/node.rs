//! Node identity and roles.
use crate::common::types::{bytes_of_u128, u128_of_bytes};
use crate::outside::uuids::{uuid_new_v4, uuid_text, uuid_to_string};
use crate::text::text_eq;
use crate::wire::{be, be_bytes, lemma_be_bytes_of_be, lemma_be_of_be_bytes, lemma_pow256_values};
use vstd::prelude::*;
use vstd::string::*;

verus! {

/// The UUID of a node, as a number.
#[derive(Clone, Copy, Debug, PartialEq, Eq, Hash, Structural)]
pub struct NodeId(pub u128);

impl NodeId {
    /// A fresh random identifier.
    pub fn new() -> (r: Self)
        ensures
            (r.0 as nat / 0x1000_0000_0000_0000_0000) % 16 == 4,
            (r.0 as nat / 0x4000_0000_0000_0000) % 4 == 2,
    {
        NodeId(uuid_new_v4())
    }

    pub fn from_bytes(b: [u8; 16]) -> (r: Self)
        ensures
            r.0 == be(b@),
    {
        NodeId(u128_of_bytes(&b))
    }

    pub fn as_bytes(&self) -> (r: [u8; 16])
        ensures
            r@ == be_bytes(self.0 as nat, 16),
    {
        bytes_of_u128(self.0)
    }

    /// The UUID text of the identifier.
    pub fn to_string(&self) -> (r: String)
        ensures
            r@ == uuid_text(self.0 as nat),
    {
        uuid_to_string(self.0)
    }
}

impl Default for NodeId {
    /// A fresh random identifier.
    fn default() -> (r: Self)
        ensures
            (r.0 as nat / 0x1000_0000_0000_0000_0000) % 16 == 4,
            (r.0 as nat / 0x4000_0000_0000_0000) % 4 == 2,
    {
        NodeId::new()
    }
}

/// A node's bytes give the node back, and the other way round.
pub proof fn node_bytes_round_trip(id: NodeId, b: [u8; 16])
    ensures
        be(be_bytes(id.0 as nat, 16)) == id.0,
        be_bytes(be(b@), 16) == b@,
{
    lemma_pow256_values();
    lemma_be_of_be_bytes(id.0 as nat, 16);
    lemma_be_bytes_of_be(b@);
}

#[derive(Clone, Copy, Debug, PartialEq, Eq, Structural)]
pub enum NodeRole {
    /// Accepts client traffic; routes/fan-outs queries; can also run scans.
    Coordinator,
    /// Executes scans only. Receives sub-plans from coordinators.
    Worker,
    /// Runs compaction in the background. Doesn't serve client traffic.
    Compactor,
    /// Does everything. Used for single-node and small-cluster deployments.
    All,
}

impl NodeRole {
    /// The name of the role.
    pub open spec fn text(self) -> Seq<char> {
        match self {
            NodeRole::Coordinator => "coordinator"@,
            NodeRole::Worker => "worker"@,
            NodeRole::Compactor => "compactor"@,
            NodeRole::All => "all"@,
        }
    }

    /// The role of that name.
    pub open spec fn named(s: Seq<char>) -> Option<NodeRole> {
        if s == "coordinator"@ {
            Some(NodeRole::Coordinator)
        } else if s == "worker"@ {
            Some(NodeRole::Worker)
        } else if s == "compactor"@ {
            Some(NodeRole::Compactor)
        } else if s == "all"@ {
            Some(NodeRole::All)
        } else {
            None
        }
    }

    /// The role serves internal queries, that is, runs scans.
    pub open spec fn scans(self) -> bool {
        self is Worker || self is All
    }

    pub fn as_str(&self) -> (r: &'static str)
        ensures
            r@ == self.text(),
    {
        match self {
            NodeRole::Coordinator => "coordinator",
            NodeRole::Worker => "worker",
            NodeRole::Compactor => "compactor",
            NodeRole::All => "all",
        }
    }

    pub fn parse(s: &str) -> (r: Option<Self>)
        ensures
            r == NodeRole::named(s@),
    {
        if text_eq(s, "coordinator") {
            Some(NodeRole::Coordinator)
        } else if text_eq(s, "worker") {
            Some(NodeRole::Worker)
        } else if text_eq(s, "compactor") {
            Some(NodeRole::Compactor)
        } else if text_eq(s, "all") {
            Some(NodeRole::All)
        } else {
            None
        }
    }

    /// True if this role serves internal queries (i.e. runs scans).
    pub fn runs_scans(&self) -> (r: bool)
        ensures
            r == self.scans(),
    {
        matches!(self, NodeRole::Worker | NodeRole::All)
    }

    /// True if this role accepts client traffic.
    pub fn accepts_client_queries(&self) -> (r: bool)
        ensures
            r == (*self is Coordinator || *self is All),
    {
        matches!(self, NodeRole::Coordinator | NodeRole::All)
    }
}

/// Reading the name of a role gives the role.
pub proof fn role_names_round_trip(role: NodeRole)
    ensures
        NodeRole::named(role.text()) == Some(role),
{
    reveal_strlit("coordinator");
    reveal_strlit("worker");
    reveal_strlit("compactor");
    reveal_strlit("all");
    assert("coordinator"@.len() == 11);
    assert("worker"@.len() == 6);
    assert("compactor"@.len() == 9);
    assert("all"@.len() == 3);
}

/// A node of the cluster.
#[derive(Clone, Debug)]
pub struct NodeInfo {
    pub node_id: NodeId,
    pub endpoint: String,
    pub role: NodeRole,
    /// Shard expression. `*` means any shard. Otherwise comma-separated
    /// `tenant=N,M` or `tenant=N..M` ranges. Parsed lazily by `ShardMap`.
    pub shards: String,
    pub last_heartbeat_ms: i64,
}

#[derive(Clone, Copy, Debug, PartialEq, Eq, Structural)]
pub enum NodeStatus {
    Alive,
    Stale,
}

impl NodeInfo {
    /// The last heartbeat is not older than `ttl_ms`.
    pub open spec fn is_alive(self, now_ms: i64, ttl_ms: i64) -> bool {
        now_ms - self.last_heartbeat_ms <= ttl_ms
    }

    /// A node is alive if its last heartbeat is within `ttl_ms`.
    pub fn status(&self, now_ms: i64, ttl_ms: i64) -> (r: NodeStatus)
        ensures
            r == (if self.is_alive(now_ms, ttl_ms) {
                NodeStatus::Alive
            } else {
                NodeStatus::Stale
            }),
    {
        if now_ms as i128 - self.last_heartbeat_ms as i128 <= ttl_ms as i128 {
            NodeStatus::Alive
        } else {
            NodeStatus::Stale
        }
    }

    pub fn copy(&self) -> (r: Self)
        ensures
            r == *self,
    {
        NodeInfo {
            node_id: self.node_id,
            endpoint: self.endpoint.clone(),
            role: self.role,
            shards: self.shards.clone(),
            last_heartbeat_ms: self.last_heartbeat_ms,
        }
    }
}

} // verus!
