//! Shard map: which nodes own which tenant's partition.
//!
//! Uses rendezvous hashing (highest random weight): every node ranks the nodes for a key
//! by a hash of node and key, and so comes to the same routing without coordination.
//! Adding or removing a node only moves the keys that this node gets or had.
//!
//! `shards` filter expressions on the nodes restrict candidates further: a node with
//! `shards="tenant=1,2"` is only eligible for tenant 1 or 2.
use crate::catalog::mock::chosen;
use crate::chars::{
    begins_with, char_rows, find_dots, number_of, parse_number, pieces, same_chars, split_chars,
    split_dots, starts_with, trim_chars, trimmed,
};
use crate::cluster::node::{NodeId, NodeInfo, NodeStatus};
use crate::outside::hashes::{xxh3_64, xxh3_64_of};
use crate::text::chars_of;
use crate::wire::{be_bytes, le_bytes, put_slice, put_u32, put_u64};
use vstd::prelude::*;
use vstd::slice::slice_subrange;
use vstd::string::*;

verus! {

#[derive(Clone, Copy, Debug, PartialEq, Eq, Hash, Structural)]
pub struct ShardKey {
    pub tenant_id: u64,
    pub partition_id: u32,
}

impl ShardKey {
    pub fn new(tenant_id: u64, partition_id: u32) -> (r: Self)
        ensures
            r == (ShardKey { tenant_id, partition_id }),
    {
        ShardKey { tenant_id, partition_id }
    }
}

/// The weight of a node for a key: a hash of the node's bytes and the key's.
pub open spec fn weight(node: NodeId, key: ShardKey) -> u64 {
    xxh3_64_of(
        be_bytes(node.0 as nat, 16) + le_bytes(key.tenant_id as nat, 8) + le_bytes(
            key.partition_id as nat,
            4,
        ),
    )
}

/// Rendezvous-hash score for a node and a key. Higher is better.
pub fn hrw_score(node: NodeId, key: ShardKey) -> (r: u64)
    ensures
        r == weight(node, key),
{
    let mut buf: Vec<u8> = Vec::new();
    let id = node.as_bytes();
    put_slice(&mut buf, id.as_slice());
    put_u64(&mut buf, key.tenant_id);
    put_u32(&mut buf, key.partition_id);
    assert(buf@ =~= be_bytes(node.0 as nat, 16) + le_bytes(key.tenant_id as nat, 8) + le_bytes(
        key.partition_id as nat,
        4,
    ));
    xxh3_64(buf.as_slice())
}

/// One part of a tenant list covers the tenant: `N` the tenant N, `N..M` those from N up
/// to but not including M.
pub open spec fn part_matches(part: Seq<char>, tenant: u64) -> bool {
    match split_dots(part) {
        Some((lo, hi)) => match (number_of(lo), number_of(hi)) {
            (Some(a), Some(b)) => a <= tenant < b,
            _ => false,
        },
        None => number_of(part) == Some(tenant),
    }
}

/// The part `i` of the list, without white space around it, covers the tenant.
pub open spec fn part_at_matches(parts: Seq<Seq<char>>, i: int, tenant: u64) -> bool {
    part_matches(trimmed(parts[i]), tenant)
}

/// A shard expression covers the tenant: `*` and the empty expression cover all, a list
/// after `tenant=` those that one of its parts covers, anything else none.
pub open spec fn expr_matches(expr: Seq<char>, tenant: u64) -> bool {
    let e = trimmed(expr);
    if e.len() == 0 || e == "*"@ {
        true
    } else if begins_with(e, "tenant="@) {
        let parts = pieces(e.skip("tenant="@.len() as int), ',');
        exists|i: int| 0 <= i < parts.len() && #[trigger] part_at_matches(parts, i, tenant)
    } else {
        false
    }
}

fn part_covers(part: &[char], tenant: u64) -> (r: bool)
    ensures
        r == part_matches(part@, tenant),
{
    match find_dots(part) {
        Some(i) => {
            let n: usize = part.len();
            let lo = slice_subrange(part, 0, i);
            let hi = slice_subrange(part, i + 2, n);
            assert(lo@ =~= part@.take(i as int));
            assert(hi@ =~= part@.skip(i + 2));
            match (parse_number(lo), parse_number(hi)) {
                (Some(a), Some(b)) => tenant >= a && tenant < b,
                _ => false,
            }
        },
        None => match parse_number(part) {
            Some(t) => t == tenant,
            None => false,
        },
    }
}

/// Whether a node's `shards` expression covers the key. Anything that cannot be read
/// covers nothing.
pub fn shard_filter_matches(expr: &str, key: ShardKey) -> (r: bool)
    ensures
        r == expr_matches(expr@, key.tenant_id),
{
    let all = chars_of(expr);
    let e = trim_chars(all.as_slice());
    let star = chars_of("*");
    if e.len() == 0 || same_chars(e, star.as_slice()) {
        return true;
    }
    let prefix = chars_of("tenant=");
    if !starts_with(e, prefix.as_slice()) {
        return false;
    }
    let rest = slice_subrange(e, prefix.len(), e.len());
    assert(rest@ =~= e@.skip("tenant="@.len() as int));
    let parts = split_chars(rest, ',');
    let ghost rows = pieces(rest@, ',');
    let mut i: usize = 0;
    assert(char_rows(parts@).len() == parts@.len());
    while i < parts.len()
        invariant
            i <= parts@.len(),
            parts@.len() == rows.len(),
            rows == char_rows(parts@),
            forall|k: int| 0 <= k < i ==> !part_at_matches(rows, k, key.tenant_id),
            expr_matches(expr@, key.tenant_id) == (exists|i: int|
                0 <= i < rows.len() && #[trigger] part_at_matches(rows, i, key.tenant_id)),
        decreases parts.len() - i,
    {
        assert(rows[i as int] == parts@[i as int]@);
        if part_covers(trim_chars(parts[i].as_slice()), key.tenant_id) {
            assert(part_at_matches(rows, i as int, key.tenant_id));
            return true;
        }
        i = i + 1;
    }
    false
}

/// The node can serve the key: it is alive, runs scans, and its expression covers the
/// tenant.
pub open spec fn eligible(n: NodeInfo, key: ShardKey, now_ms: i64, ttl_ms: i64) -> bool {
    n.is_alive(now_ms, ttl_ms) && n.role.scans() && expr_matches(n.shards@, key.tenant_id)
}

/// The nodes that can serve the key.
pub open spec fn candidates(nodes: Seq<NodeInfo>, key: ShardKey, now_ms: i64, ttl_ms: i64) -> Seq<
    NodeInfo,
> {
    chosen(nodes, |n: NodeInfo| eligible(n, key, now_ms, ttl_ms))
}

/// A ranking with one more node in it: behind all nodes that weigh as much or more.
pub open spec fn with_ranked(ranked: Seq<NodeInfo>, n: NodeInfo, key: ShardKey) -> Seq<NodeInfo>
    decreases ranked.len(),
{
    if ranked.len() == 0 || weight(ranked.last().node_id, key) >= weight(n.node_id, key) {
        ranked.push(n)
    } else {
        with_ranked(ranked.drop_last(), n, key).push(ranked.last())
    }
}

/// The nodes by weight, the heaviest first; of equal ones the first comes first.
pub open spec fn ranking(nodes: Seq<NodeInfo>, key: ShardKey) -> Seq<NodeInfo>
    decreases nodes.len(),
{
    if nodes.len() == 0 {
        Seq::empty()
    } else {
        with_ranked(ranking(nodes.drop_last(), key), nodes.last(), key)
    }
}

/// The first `n` items.
pub open spec fn first_n<T>(items: Seq<T>, n: nat) -> Seq<T> {
    if n < items.len() {
        items.take(n as int)
    } else {
        items
    }
}

/// The replicas of a key: the heaviest nodes that can serve it.
pub open spec fn replicas(
    nodes: Seq<NodeInfo>,
    key: ShardKey,
    now_ms: i64,
    ttl_ms: i64,
    factor: nat,
) -> Seq<NodeInfo> {
    first_n(ranking(candidates(nodes, key, now_ms, ttl_ms), key), factor)
}

/// One of the nodes has the identifier.
pub open spec fn has_node(nodes: Seq<NodeInfo>, id: NodeId) -> bool {
    exists|i: int| 0 <= i < nodes.len() && (#[trigger] nodes[i]).node_id == id
}

/// Which nodes there are, and how many replicas a key has.
#[derive(Clone)]
pub struct ShardMap {
    /// All known nodes (alive + stale). The router filters by liveness.
    nodes: Vec<NodeInfo>,
    /// Replication factor: how many replicas to return per shard.
    replication_factor: usize,
    /// Heartbeat TTL in ms; nodes that haven't beat within this are skipped.
    heartbeat_ttl_ms: i64,
}

/// The content of a shard map.
pub ghost struct ShardMapView {
    pub nodes: Seq<NodeInfo>,
    pub replication_factor: nat,
    pub heartbeat_ttl_ms: i64,
}

impl ShardMapView {
    pub open spec fn replicas(self, key: ShardKey, now_ms: i64) -> Seq<NodeInfo> {
        replicas(self.nodes, key, now_ms, self.heartbeat_ttl_ms, self.replication_factor)
    }

    /// The nodes that are alive and run scans.
    pub open spec fn workers(self, now_ms: i64) -> Seq<NodeInfo> {
        chosen(
            self.nodes,
            |n: NodeInfo| n.is_alive(now_ms, self.heartbeat_ttl_ms) && n.role.scans(),
        )
    }
}

/// Puts a node into a ranking.
fn rank_node(ranked: &mut Vec<NodeInfo>, n: NodeInfo, key: ShardKey)
    ensures
        final(ranked)@ == with_ranked(old(ranked)@, n, key),
{
    let w: u64 = hrw_score(n.node_id, key);
    let ghost before = ranked@;
    let mut at: usize = ranked.len();
    assert(before.take(at as int) =~= before);
    assert(before.skip(at as int) =~= Seq::empty());
    assert(with_ranked(before, n, key) =~= with_ranked(before.take(at as int), n, key)
        + before.skip(at as int));
    while at > 0 && hrw_score(ranked[at - 1].node_id, key) < w
        invariant
            at <= before.len(),
            ranked@ == before,
            w == weight(n.node_id, key),
            with_ranked(before, n, key) == with_ranked(before.take(at as int), n, key)
                + before.skip(at as int),
        decreases at,
    {
        proof {
            let here = before.take(at as int);
            assert(here.last() == before[at - 1]);
            assert(here.drop_last() =~= before.take(at - 1));
            assert(with_ranked(here, n, key) + before.skip(at as int) =~= with_ranked(
                before.take(at - 1),
                n,
                key,
            ) + before.skip(at - 1));
        }
        at = at - 1;
    }
    proof {
        let here = before.take(at as int);
        if at > 0 {
            assert(here.last() == before[at - 1]);
        }
        assert(with_ranked(here, n, key) == here.push(n));
        assert(before.insert(at as int, n) =~= here.push(n) + before.skip(at as int));
    }
    ranked.insert(at, n);
}

impl ShardMap {
    pub closed spec fn view(&self) -> ShardMapView {
        ShardMapView {
            nodes: self.nodes@,
            replication_factor: self.replication_factor as nat,
            heartbeat_ttl_ms: self.heartbeat_ttl_ms,
        }
    }

    /// A shard map of these nodes, with at least one replica per shard.
    pub fn new(nodes: Vec<NodeInfo>, replication_factor: usize, heartbeat_ttl_ms: i64) -> (r: Self)
        ensures
            r@ == (ShardMapView {
                nodes: nodes@,
                replication_factor: if replication_factor == 0 {
                    1
                } else {
                    replication_factor as nat
                },
                heartbeat_ttl_ms,
            }),
    {
        ShardMap {
            nodes,
            replication_factor: if replication_factor == 0 {
                1
            } else {
                replication_factor
            },
            heartbeat_ttl_ms,
        }
    }

    pub fn nodes(&self) -> (r: &[NodeInfo])
        ensures
            r@ == self@.nodes,
    {
        self.nodes.as_slice()
    }

    pub fn replication_factor(&self) -> (r: usize)
        ensures
            r == self@.replication_factor,
    {
        self.replication_factor
    }

    pub fn heartbeat_ttl_ms(&self) -> (r: i64)
        ensures
            r == self@.heartbeat_ttl_ms,
    {
        self.heartbeat_ttl_ms
    }

    /// A copy with the same content.
    pub fn copy(&self) -> (r: Self)
        ensures
            r@ == self@,
    {
        let mut nodes: Vec<NodeInfo> = Vec::new();
        let mut i: usize = 0;
        while i < self.nodes.len()
            invariant
                i <= self.nodes@.len(),
                nodes@ == self.nodes@.take(i as int),
            decreases self.nodes.len() - i,
        {
            nodes.push(self.nodes[i].copy());
            i = i + 1;
            assert(nodes@ =~= self.nodes@.take(i as int));
        }
        assert(nodes@ =~= self.nodes@);
        ShardMap {
            nodes,
            replication_factor: self.replication_factor,
            heartbeat_ttl_ms: self.heartbeat_ttl_ms,
        }
    }

    /// Resolves a key to its ranked replicas: only nodes that are alive, run scans and
    /// whose expression covers the tenant.
    pub fn replicas_for(&self, key: ShardKey, now_ms: i64) -> (r: Vec<NodeInfo>)
        ensures
            r@ == self@.replicas(key, now_ms),
    {
        let ghost ttl = self.heartbeat_ttl_ms;
        let ghost p = |n: NodeInfo| eligible(n, key, now_ms, ttl);
        let ghost all = self.nodes@;
        let mut ranked: Vec<NodeInfo> = Vec::new();
        let mut i: usize = 0;
        assert(all.take(0) =~= Seq::empty());
        while i < self.nodes.len()
            invariant
                i <= self.nodes@.len(),
                all == self.nodes@,
                ttl == self.heartbeat_ttl_ms,
                p == (|n: NodeInfo| eligible(n, key, now_ms, ttl)),
                ranked@ == ranking(chosen(all.take(i as int), p), key),
            decreases self.nodes.len() - i,
        {
            let n = &self.nodes[i];
            proof {
                assert(all.take(i + 1).drop_last() =~= all.take(i as int));
                assert(all.take(i + 1).last() == *n);
            }
            if n.status(now_ms, self.heartbeat_ttl_ms) == NodeStatus::Alive && n.role.runs_scans()
                && shard_filter_matches(n.shards.as_str(), key) {
                proof {
                    let c = chosen(all.take(i as int), p);
                    assert(chosen(all.take(i + 1), p) == c.push(*n));
                    assert(c.push(*n).drop_last() =~= c);
                }
                rank_node(&mut ranked, n.copy(), key);
            }
            i = i + 1;
        }
        assert(all.take(i as int) =~= all);
        let ghost whole = ranked@;
        if self.replication_factor < ranked.len() {
            ranked.truncate(self.replication_factor);
            assert(ranked@ =~= whole.take(self.replication_factor as int));
        }
        ranked
    }

    /// The keys of which the node is a replica.
    pub fn shards_owned_by(
        &self,
        local: NodeId,
        candidate_keys: &[ShardKey],
        now_ms: i64,
    ) -> (r: Vec<ShardKey>)
        ensures
            r@ == chosen(
                candidate_keys@,
                |k: ShardKey| has_node(self@.replicas(k, now_ms), local),
            ),
    {
        let ghost p = |k: ShardKey| has_node(self@.replicas(k, now_ms), local);
        let ghost all = candidate_keys@;
        let mut out: Vec<ShardKey> = Vec::new();
        let mut i: usize = 0;
        assert(all.take(0) =~= Seq::empty());
        while i < candidate_keys.len()
            invariant
                i <= candidate_keys.len(),
                all == candidate_keys@,
                p == (|k: ShardKey| has_node(self@.replicas(k, now_ms), local)),
                out@ == chosen(all.take(i as int), p),
            decreases candidate_keys.len() - i,
        {
            let k: ShardKey = candidate_keys[i];
            proof {
                assert(all.take(i + 1).drop_last() =~= all.take(i as int));
                assert(all.take(i + 1).last() == k);
            }
            let owners = self.replicas_for(k, now_ms);
            if lists_node(&owners, local) {
                out.push(k);
            }
            i = i + 1;
        }
        assert(all.take(i as int) =~= all);
        out
    }

    /// All nodes that are alive and run scans. Used when a query has no shard predicate
    /// and needs to fan out everywhere.
    pub fn all_alive_workers(&self, now_ms: i64) -> (r: Vec<NodeInfo>)
        ensures
            r@ == self@.workers(now_ms),
    {
        let ghost ttl = self.heartbeat_ttl_ms;
        let ghost p = |n: NodeInfo| n.is_alive(now_ms, ttl) && n.role.scans();
        let ghost all = self.nodes@;
        let mut out: Vec<NodeInfo> = Vec::new();
        let mut i: usize = 0;
        assert(all.take(0) =~= Seq::empty());
        while i < self.nodes.len()
            invariant
                i <= self.nodes@.len(),
                all == self.nodes@,
                ttl == self.heartbeat_ttl_ms,
                p == (|n: NodeInfo| n.is_alive(now_ms, ttl) && n.role.scans()),
                out@ == chosen(all.take(i as int), p),
            decreases self.nodes.len() - i,
        {
            let n = &self.nodes[i];
            proof {
                assert(all.take(i + 1).drop_last() =~= all.take(i as int));
                assert(all.take(i + 1).last() == *n);
            }
            if n.status(now_ms, self.heartbeat_ttl_ms) == NodeStatus::Alive
                && n.role.runs_scans() {
                out.push(n.copy());
            }
            i = i + 1;
        }
        assert(all.take(i as int) =~= all);
        out
    }
}

/// Whether one of the nodes has the identifier.
pub fn lists_node(nodes: &Vec<NodeInfo>, id: NodeId) -> (r: bool)
    ensures
        r == has_node(nodes@, id),
{
    let mut i: usize = 0;
    while i < nodes.len()
        invariant
            i <= nodes@.len(),
            forall|k: int| 0 <= k < i ==> (#[trigger] nodes@[k]).node_id != id,
        decreases nodes.len() - i,
    {
        if nodes[i].node_id.0 == id.0 {
            assert(nodes@[i as int].node_id == id);
            return true;
        }
        i = i + 1;
    }
    false
}

} // verus!
