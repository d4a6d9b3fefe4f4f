//! Which nodes a query goes to, and which hosts may be asked.
use crate::catalog::laws::{lemma_chosen, node_rows_are_replaced};
use crate::catalog::mock::{chosen, CatalogView};
use crate::catalog::model::NodeRow;
use crate::chars::begins_with;
use crate::cluster::node::{role_names_round_trip, NodeId, NodeInfo, NodeRole};
use crate::cluster::registry::{are_nodes_of, is_node_of, ticked, RegistryView};
use crate::cluster::remote::{is_allowed, without_slashes};
use crate::cluster::router::{fan_out_route, tenant_route, RouteView};
use crate::cluster::shard::{
    candidates, eligible, expr_matches, has_node, ranking, replicas, weight, ShardKey, ShardMapView,
};
use crate::cluster::shard_laws::{ranking_is_by_weight, ranking_keeps_nodes, replicas_are_eligible};
use crate::outside::hashes::xxh3_64_of;
use crate::wire::{be, le, lemma_be_bytes_of_be, lemma_le_bytes_of_le};
use vstd::prelude::*;
use vstd::string::*;

verus! {

/// The node runs scans, its last heartbeat is not older than `ttl_ms`, and its expression
/// covers the tenant.
pub open spec fn can_serve(n: NodeInfo, tenant: u64, now_ms: i64, ttl_ms: i64) -> bool {
    &&& n.role == NodeRole::Worker || n.role == NodeRole::All
    &&& now_ms - n.last_heartbeat_ms <= ttl_ms
    &&& expr_matches(n.shards@, tenant)
}

/// The replicas of a key are nodes that can serve its tenant, the heaviest first. There are as
/// many as asked for, or all that can serve, and none that is left out weighs more than one
/// that is taken.
pub proof fn replicas_are_the_heaviest(
    nodes: Seq<NodeInfo>,
    key: ShardKey,
    now_ms: i64,
    ttl_ms: i64,
    factor: nat,
)
    ensures
        ({
            let r = replicas(nodes, key, now_ms, ttl_ms, factor);
            &&& r.len() <= factor
            &&& forall|i: int|
                0 <= i < r.len() ==> nodes.contains(#[trigger] r[i]) && can_serve(
                    r[i],
                    key.tenant_id,
                    now_ms,
                    ttl_ms,
                )
            &&& forall|i: int, j: int|
                0 <= i < j < r.len() ==> weight(#[trigger] r[i].node_id, key) >= weight(
                    #[trigger] r[j].node_id,
                    key,
                )
            &&& forall|k: int|
                0 <= k < nodes.len() && can_serve(
                    #[trigger] nodes[k],
                    key.tenant_id,
                    now_ms,
                    ttl_ms,
                ) && !r.contains(nodes[k]) ==> r.len() == factor && forall|i: int|
                    0 <= i < r.len() ==> weight(#[trigger] r[i].node_id, key) >= weight(
                        nodes[k].node_id,
                        key,
                    )
        }),
{
    let c = candidates(nodes, key, now_ms, ttl_ms);
    let p = |n: NodeInfo| eligible(n, key, now_ms, ttl_ms);
    lemma_chosen(nodes, p);
    ranking_is_by_weight(c, key);
    ranking_keeps_nodes(c, key);
    replicas_are_eligible(nodes, key, now_ms, ttl_ms, factor);
    let r = replicas(nodes, key, now_ms, ttl_ms, factor);
    let s = ranking(c, key);
    assert forall|i: int| 0 <= i < r.len() implies #[trigger] r[i] == s[i] by {}
    assert forall|i: int, j: int| 0 <= i < j < r.len() implies weight(
        #[trigger] r[i].node_id,
        key,
    ) >= weight(#[trigger] r[j].node_id, key) by {
        assert(weight(s[i].node_id, key) >= weight(s[j].node_id, key));
    }
    assert forall|k: int|
        0 <= k < nodes.len() && can_serve(#[trigger] nodes[k], key.tenant_id, now_ms, ttl_ms)
            && !r.contains(nodes[k]) implies r.len() == factor && forall|i: int|
        0 <= i < r.len() ==> weight(#[trigger] r[i].node_id, key) >= weight(
            nodes[k].node_id,
            key,
        ) by {
        assert(p(nodes[k]));
        assert(c.contains(nodes[k]));
        let m = choose|m: int| 0 <= m < c.len() && c[m] == nodes[k];
        assert(s.contains(c[m]));
        let q = choose|q: int| 0 <= q < s.len() && s[q] == nodes[k];
        if q < r.len() {
            assert(r[q] == nodes[k]);
        }
        assert forall|i: int| 0 <= i < r.len() implies weight(#[trigger] r[i].node_id, key)
            >= weight(nodes[k].node_id, key) by {
            assert(weight(s[i].node_id, key) >= weight(s[q].node_id, key));
        }
    }
}

/// The weight of a node for a key is a hash of nothing but the node, the tenant and the
/// partition, and of all three: of the bytes from which each of them can be read back.
pub proof fn weights_hash_node_tenant_and_partition(node: NodeId, key: ShardKey, bytes: Seq<u8>)
    requires
        bytes.len() == 28,
        be(bytes.subrange(0, 16)) == node.0,
        le(bytes.subrange(16, 24)) == key.tenant_id,
        le(bytes.subrange(24, 28)) == key.partition_id,
    ensures
        weight(node, key) == xxh3_64_of(bytes),
{
    lemma_be_bytes_of_be(bytes.subrange(0, 16));
    lemma_le_bytes_of_le(bytes.subrange(16, 24));
    lemma_le_bytes_of_le(bytes.subrange(24, 28));
    assert(bytes.subrange(0, 16) + bytes.subrange(16, 24) + bytes.subrange(24, 28) =~= bytes);
}

/// A tenant's query runs here if no node can serve the tenant or if this node is the heaviest
/// that can; else it goes to others that can, the heaviest first.
pub proof fn tenant_queries_go_to_their_owner(
    map: ShardMapView,
    local: NodeId,
    key: ShardKey,
    now_ms: i64,
)
    requires
        map.replication_factor > 0,
    ensures
        match tenant_route(map, local, key, now_ms) {
            RouteView::Local => (forall|k: int|
                0 <= k < map.nodes.len() ==> !can_serve(
                    #[trigger] map.nodes[k],
                    key.tenant_id,
                    now_ms,
                    map.heartbeat_ttl_ms,
                )) || (exists|k: int|
                0 <= k < map.nodes.len() && can_serve(
                    #[trigger] map.nodes[k],
                    key.tenant_id,
                    now_ms,
                    map.heartbeat_ttl_ms,
                ) && map.nodes[k].node_id == local && is_heaviest(map, key, now_ms, k)),
            RouteView::Remote(targets) => {
                &&& 0 < targets.len() <= map.replication_factor
                &&& targets[0].node_id != local
                &&& forall|i: int|
                    0 <= i < targets.len() ==> map.nodes.contains(#[trigger] targets[i])
                        && can_serve(targets[i], key.tenant_id, now_ms, map.heartbeat_ttl_ms)
                &&& forall|i: int, j: int|
                    0 <= i < j < targets.len() ==> weight(#[trigger] targets[i].node_id, key)
                        >= weight(#[trigger] targets[j].node_id, key)
                &&& exists|k: int|
                    0 <= k < map.nodes.len() && #[trigger] map.nodes[k] == targets[0]
                        && is_heaviest(map, key, now_ms, k)
            },
            RouteView::FanOut { targets, include_local } => false,
        },
{
    let r = map.replicas(key, now_ms);
    let ttl = map.heartbeat_ttl_ms;
    replicas_are_the_heaviest(map.nodes, key, now_ms, ttl, map.replication_factor);
    if r.len() > 0 {
        assert(map.nodes.contains(r[0]));
        let k = choose|k: int| 0 <= k < map.nodes.len() && map.nodes[k] == r[0];
        assert forall|m: int| 0 <= m < map.nodes.len() && can_serve(
            #[trigger] map.nodes[m],
            key.tenant_id,
            now_ms,
            ttl,
        ) implies weight(map.nodes[k].node_id, key) >= weight(map.nodes[m].node_id, key) by {
            if r.contains(map.nodes[m]) {
                let i = choose|i: int| 0 <= i < r.len() && r[i] == map.nodes[m];
                if i > 0 {
                    assert(weight(r[0].node_id, key) >= weight(r[i].node_id, key));
                }
            } else {
                assert(weight(r[0].node_id, key) >= weight(map.nodes[m].node_id, key));
            }
        }
        assert(is_heaviest(map, key, now_ms, k));
        assert(can_serve(map.nodes[k], key.tenant_id, now_ms, ttl));
    } else {
        assert forall|k: int| 0 <= k < map.nodes.len() implies !can_serve(
            #[trigger] map.nodes[k],
            key.tenant_id,
            now_ms,
            ttl,
        ) by {
            assert(!r.contains(map.nodes[k]));
        }
    }
}

/// No node that can serve the tenant weighs more than this one.
pub open spec fn is_heaviest(map: ShardMapView, key: ShardKey, now_ms: i64, k: int) -> bool {
    forall|m: int|
        0 <= m < map.nodes.len() && can_serve(
            #[trigger] map.nodes[m],
            key.tenant_id,
            now_ms,
            map.heartbeat_ttl_ms,
        ) ==> weight(map.nodes[k].node_id, key) >= weight(map.nodes[m].node_id, key)
}

/// The node runs scans and its last heartbeat is not older than `ttl_ms`.
pub open spec fn is_live_worker(n: NodeInfo, now_ms: i64, ttl_ms: i64) -> bool {
    &&& n.role == NodeRole::Worker || n.role == NodeRole::All
    &&& now_ms - n.last_heartbeat_ms <= ttl_ms
}

/// A query across tenants goes to every live worker but this node, to no other node, and is
/// run here if and only if this node is a live worker.
pub proof fn fan_outs_reach_all_live_workers(map: ShardMapView, local: NodeId, now_ms: i64)
    ensures
        fan_out_route(map, local, now_ms) matches RouteView::FanOut { targets, include_local } && {
            &&& forall|k: int|
                0 <= k < map.nodes.len() && is_live_worker(
                    #[trigger] map.nodes[k],
                    now_ms,
                    map.heartbeat_ttl_ms,
                ) && map.nodes[k].node_id != local ==> targets.contains(map.nodes[k])
            &&& forall|i: int|
                0 <= i < targets.len() ==> map.nodes.contains(#[trigger] targets[i])
                    && is_live_worker(targets[i], now_ms, map.heartbeat_ttl_ms)
                    && targets[i].node_id != local
            &&& include_local <==> exists|k: int|
                0 <= k < map.nodes.len() && is_live_worker(
                    #[trigger] map.nodes[k],
                    now_ms,
                    map.heartbeat_ttl_ms,
                ) && map.nodes[k].node_id == local
        },
{
    let ttl = map.heartbeat_ttl_ms;
    let p = |n: NodeInfo| n.is_alive(now_ms, map.heartbeat_ttl_ms) && n.role.scans();
    let q = |n: NodeInfo| n.node_id != local;
    let workers = map.workers(now_ms);
    lemma_chosen(map.nodes, p);
    lemma_chosen(workers, q);
    let targets = chosen(workers, q);
    assert forall|k: int|
        0 <= k < map.nodes.len() && is_live_worker(#[trigger] map.nodes[k], now_ms, ttl)
            && map.nodes[k].node_id != local implies targets.contains(map.nodes[k]) by {
        assert(p(map.nodes[k]));
        let m = choose|m: int| 0 <= m < workers.len() && workers[m] == map.nodes[k];
        assert(q(workers[m]));
    }
    assert forall|i: int| 0 <= i < targets.len() implies map.nodes.contains(#[trigger] targets[i])
        && is_live_worker(targets[i], now_ms, ttl) && targets[i].node_id != local by {
        assert(q(targets[i]) && workers.contains(targets[i]));
        let m = choose|m: int| 0 <= m < workers.len() && workers[m] == targets[i];
        assert(p(workers[m]) && map.nodes.contains(workers[m]));
    }
    if has_node(workers, local) {
        let m = choose|m: int| 0 <= m < workers.len() && (#[trigger] workers[m]).node_id == local;
        assert(p(workers[m]) && map.nodes.contains(workers[m]));
        let k = choose|k: int| 0 <= k < map.nodes.len() && map.nodes[k] == workers[m];
        assert(is_live_worker(map.nodes[k], now_ms, ttl));
    }
    if exists|k: int|
        0 <= k < map.nodes.len() && is_live_worker(#[trigger] map.nodes[k], now_ms, ttl)
            && map.nodes[k].node_id == local {
        let k = choose|k: int|
            0 <= k < map.nodes.len() && is_live_worker(#[trigger] map.nodes[k], now_ms, ttl)
                && map.nodes[k].node_id == local;
        assert(p(map.nodes[k]));
        let m = choose|m: int| 0 <= m < workers.len() && workers[m] == map.nodes[k];
        assert(workers[m].node_id == local);
    }
}

/// The node has the row's identifier, endpoint, shards and heartbeat, and the role that the
/// row names.
pub open spec fn mirrors(n: NodeInfo, row: NodeRow) -> bool {
    &&& n.node_id.0 == row.node_id
    &&& n.endpoint@ == row.endpoint@
    &&& n.shards@ == row.shards@
    &&& n.last_heartbeat_ms == row.last_heartbeat_ms
    &&& row.role@ == (match n.role {
        NodeRole::Coordinator => "coordinator"@,
        NodeRole::Worker => "worker"@,
        NodeRole::Compactor => "compactor"@,
        NodeRole::All => "all"@,
    })
}

proof fn lemma_row_node(rows: Seq<NodeRow>, nodes: Seq<NodeInfo>, k: int) -> (i: int)
    requires
        are_nodes_of(rows, nodes),
        0 <= k < rows.len(),
        NodeRole::named(rows[k].role@) is Some,
    ensures
        0 <= i < nodes.len(),
        is_node_of(rows[k], nodes[i]),
    decreases rows.len(),
{
    if k == rows.len() - 1 {
        nodes.len() - 1
    } else if NodeRole::named(rows.last().role@) is Some {
        lemma_row_node(rows.drop_last(), nodes.drop_last(), k)
    } else {
        lemma_row_node(rows.drop_last(), nodes, k)
    }
}

proof fn lemma_node_row(rows: Seq<NodeRow>, nodes: Seq<NodeInfo>, i: int) -> (k: int)
    requires
        are_nodes_of(rows, nodes),
        0 <= i < nodes.len(),
    ensures
        0 <= k < rows.len(),
        is_node_of(rows[k], nodes[i]),
    decreases rows.len(),
{
    if NodeRole::named(rows.last().role@) is None {
        lemma_node_row(rows.drop_last(), nodes, i)
    } else if i == nodes.len() - 1 {
        rows.len() - 1
    } else {
        lemma_node_row(rows.drop_last(), nodes.drop_last(), i)
    }
}

proof fn lemma_mirrors(row: NodeRow, n: NodeInfo)
    requires
        is_node_of(row, n),
    ensures
        mirrors(n, row),
{
}

/// Every row of the catalog whose role is a known one becomes a node with the row's values,
/// and every node comes of such a row.
pub proof fn nodes_mirror_their_rows(rows: Seq<NodeRow>, nodes: Seq<NodeInfo>)
    requires
        are_nodes_of(rows, nodes),
    ensures
        forall|k: int|
            0 <= k < rows.len() && ((#[trigger] rows[k]).role@ == "coordinator"@ || rows[k].role@
                == "worker"@ || rows[k].role@ == "compactor"@ || rows[k].role@ == "all"@)
                ==> exists|i: int| 0 <= i < nodes.len() && #[trigger] mirrors(nodes[i], rows[k]),
        forall|i: int|
            0 <= i < nodes.len() ==> exists|k: int|
                0 <= k < rows.len() && mirrors(#[trigger] nodes[i], #[trigger] rows[k]),
{
    assert forall|k: int|
        0 <= k < rows.len() && ((#[trigger] rows[k]).role@ == "coordinator"@ || rows[k].role@
            == "worker"@ || rows[k].role@ == "compactor"@ || rows[k].role@
            == "all"@) implies exists|i: int|
        0 <= i < nodes.len() && #[trigger] mirrors(nodes[i], rows[k]) by {
        let i = lemma_row_node(rows, nodes, k);
        lemma_mirrors(rows[k], nodes[i]);
    }
    assert forall|i: int| 0 <= i < nodes.len() implies exists|k: int|
        0 <= k < rows.len() && mirrors(#[trigger] nodes[i], #[trigger] rows[k]) by {
        let k = lemma_node_row(rows, nodes, i);
        lemma_mirrors(rows[k], nodes[i]);
    }
}

/// After a tick the registry knows its own node, with the endpoint, role and shards that it
/// runs under and the time of the tick as its heartbeat.
pub proof fn ticks_announce_the_node(
    before: RegistryView,
    after: RegistryView,
    catalog_before: CatalogView,
    catalog_after: CatalogView,
    now_ms: i64,
    row: NodeRow,
)
    requires
        ticked(before, after, catalog_before, catalog_after, now_ms, row),
    ensures
        exists|i: int|
            0 <= i < after.map.nodes.len() && (#[trigger] after.map.nodes[i]).node_id
                == before.local_id && after.map.nodes[i].endpoint@ == before.local_endpoint
                && after.map.nodes[i].role == before.local_role && after.map.nodes[i].shards@
                == before.local_shards && after.map.nodes[i].last_heartbeat_ms == now_ms,
        after.local_id == before.local_id,
        after.local_endpoint == before.local_endpoint,
        after.local_role == before.local_role,
        after.local_shards == before.local_shards,
{
    node_rows_are_replaced(catalog_before.nodes, row);
    let rows = catalog_after.nodes;
    let nodes = after.map.nodes;
    let k = choose|k: int| 0 <= k < rows.len() && rows[k] == row;
    role_names_round_trip(before.local_role);
    let i = lemma_row_node(rows, nodes, k);
    assert(nodes[i].node_id == before.local_id);
}

/// The addresses of instance-metadata services and other link-local addresses are never asked,
/// over any scheme and whatever follows the beginning that gives them away.
pub proof fn metadata_hosts_are_refused(scheme: Seq<char>, rest: Seq<char>)
    ensures
        !is_allowed(Some((scheme, Some("169.254."@ + rest)))),
        !is_allowed(Some((scheme, Some("fe80:"@ + rest)))),
        !is_allowed(Some((scheme, Some("[fe80:"@ + rest)))),
        !is_allowed(Some((scheme, Some("169.254.169.254"@)))),
        !is_allowed(Some((scheme, Some("metadata.google.internal"@)))),
        !is_allowed(Some((scheme, Some("metadata"@)))),
        !is_allowed(Some((scheme, Some("fd00:ec2::254"@)))),
        !is_allowed(Some((scheme, Some("[fd00:ec2::254]"@)))),
        !is_allowed(Some((scheme, Some("fe80::a9fe:a9fe"@)))),
{
    assert(("169.254."@ + rest).take("169.254."@.len() as int) =~= "169.254."@);
    assert(("fe80:"@ + rest).take("fe80:"@.len() as int) =~= "fe80:"@);
    assert(("[fe80:"@ + rest).take("[fe80:"@.len() as int) =~= "[fe80:"@);
}

/// Hosts are asked over HTTP, with or without TLS, and over nothing else; a URL that cannot be
/// read or has no host is not asked.
pub proof fn only_http_is_spoken(scheme: Seq<char>, host: Option<Seq<char>>)
    requires
        scheme != "http"@ && scheme != "https"@ || host is None,
    ensures
        !is_allowed(Some((scheme, host))),
        !is_allowed(None),
{
}

/// Every other host may be asked, loopback and private addresses among them: one that does not
/// begin like a link-local address and is not the name of a metadata service.
pub proof fn other_hosts_are_allowed(host: Seq<char>)
    requires
        !"169.254."@.is_prefix_of(host),
        !"fe80:"@.is_prefix_of(host),
        !"[fe80:"@.is_prefix_of(host),
        host != "metadata.google.internal"@,
        host != "metadata"@,
        host != "fd00:ec2::254"@,
        host != "[fd00:ec2::254]"@,
    ensures
        is_allowed(Some(("http"@, Some(host)))),
        is_allowed(Some(("https"@, Some(host)))),
{
    reveal_strlit("169.254.");
    reveal_strlit("169.254.169.254");
    reveal_strlit("fe80:");
    reveal_strlit("fe80::a9fe:a9fe");
    lemma_prefix(host, "169.254."@);
    lemma_prefix(host, "fe80:"@);
    lemma_prefix(host, "[fe80:"@);
    assert("169.254."@.is_prefix_of("169.254.169.254"@)) by {
        assert("169.254.169.254"@.subrange(0, 8) =~= "169.254."@);
    }
    assert("fe80:"@.is_prefix_of("fe80::a9fe:a9fe"@)) by {
        assert("fe80::a9fe:a9fe"@.subrange(0, 5) =~= "fe80:"@);
    }
}

proof fn lemma_prefix(s: Seq<char>, p: Seq<char>)
    ensures
        begins_with(s, p) ==> p.is_prefix_of(s),
{
    if begins_with(s, p) {
        assert(s.take(p.len() as int) =~= s.subrange(0, p.len() as int));
    }
}

/// Slashes at the end of an endpoint do not matter, and no other character is lost.
pub proof fn slashes_at_the_end_are_dropped(s: Seq<char>, n: nat)
    requires
        s.len() > 0 ==> s.last() != '/',
    ensures
        without_slashes(s + Seq::new(n, |i: int| '/')) == s,
    decreases n,
{
    let t = s + Seq::new(n, |i: int| '/');
    if n == 0 {
        assert(t =~= s);
    } else {
        assert(t.drop_last() =~= s + Seq::new((n - 1) as nat, |i: int| '/'));
        slashes_at_the_end_are_dropped(s, (n - 1) as nat);
    }
}

/// A node owns a shard exactly when it is among the shard's replicas.
pub proof fn owned_shards_have_their_owner_among_replicas(
    map: ShardMapView,
    local: NodeId,
    keys: Seq<ShardKey>,
    now_ms: i64,
)
    ensures
        ({
            let owned = chosen(keys, |k: ShardKey| has_node(map.replicas(k, now_ms), local));
            forall|k: ShardKey| #[trigger]
                owned.contains(k) <==> keys.contains(k) && exists|i: int|
                    0 <= i < map.replicas(k, now_ms).len() && (#[trigger] map.replicas(
                        k,
                        now_ms,
                    )[i]).node_id == local
        }),
{
    let p = |k: ShardKey| has_node(map.replicas(k, now_ms), local);
    let owned = chosen(keys, p);
    lemma_chosen(keys, p);
    assert forall|k: ShardKey| #[trigger] owned.contains(k) <==> keys.contains(k) && exists|i: int|
        0 <= i < map.replicas(k, now_ms).len() && (#[trigger] map.replicas(k, now_ms)[i]).node_id
            == local by {
        if owned.contains(k) {
            let m = choose|m: int| 0 <= m < owned.len() && owned[m] == k;
            assert(p(owned[m]));
        }
        if keys.contains(k) && p(k) {
            let m = choose|m: int| 0 <= m < keys.len() && keys[m] == k;
            assert(p(keys[m]));
        }
    }
}

} // verus!
