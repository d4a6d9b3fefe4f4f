//! What rendezvous hashing promises.
use crate::catalog::laws::lemma_chosen;
use crate::cluster::node::NodeInfo;
use crate::cluster::shard::{candidates, eligible, ranking, replicas, weight, with_ranked, ShardKey};
use vstd::prelude::*;

verus! {

/// Ranking one more node puts it somewhere and leaves the order of the others.
proof fn lemma_with_ranked(ranked: Seq<NodeInfo>, n: NodeInfo, key: ShardKey) -> (k: int)
    ensures
        0 <= k <= ranked.len(),
        with_ranked(ranked, n, key) == ranked.insert(k, n),
        forall|i: int| k <= i < ranked.len() ==> weight(#[trigger] ranked[i].node_id, key)
            < weight(n.node_id, key),
        k > 0 ==> weight(ranked[k - 1].node_id, key) >= weight(n.node_id, key),
    decreases ranked.len(),
{
    if ranked.len() == 0 || weight(ranked.last().node_id, key) >= weight(n.node_id, key) {
        assert(ranked.push(n) =~= ranked.insert(ranked.len() as int, n));
        ranked.len() as int
    } else {
        let k = lemma_with_ranked(ranked.drop_last(), n, key);
        assert(ranked.drop_last().insert(k, n).push(ranked.last()) =~= ranked.insert(k, n));
        assert forall|i: int| k <= i < ranked.len() implies weight(
            #[trigger] ranked[i].node_id,
            key,
        ) < weight(n.node_id, key) by {
            if i < ranked.len() - 1 {
                assert(ranked.drop_last()[i] == ranked[i]);
            }
        }
        k
    }
}

/// The ranking has the heaviest nodes first.
pub proof fn ranking_is_by_weight(nodes: Seq<NodeInfo>, key: ShardKey)
    ensures
        ranking(nodes, key).len() == nodes.len(),
        forall|i: int, j: int|
            0 <= i < j < nodes.len() ==> weight(#[trigger] ranking(nodes, key)[i].node_id, key)
                >= weight(#[trigger] ranking(nodes, key)[j].node_id, key),
    decreases nodes.len(),
{
    if nodes.len() > 0 {
        let head = nodes.drop_last();
        let n = nodes.last();
        ranking_is_by_weight(head, key);
        let r = ranking(head, key);
        let k = lemma_with_ranked(r, n, key);
        let s = ranking(nodes, key);
        assert(s == r.insert(k, n));
        assert forall|i: int, j: int| 0 <= i < j < nodes.len() implies weight(
            #[trigger] s[i].node_id,
            key,
        ) >= weight(#[trigger] s[j].node_id, key) by {
            let a = if i < k { i } else { i - 1 };
            let b = if j < k { j } else { j - 1 };
            if i == k {
                assert(s[j] == r[b]);
            } else if j == k {
                assert(s[i] == r[a]);
                if a < k - 1 {
                    assert(weight(r[a].node_id, key) >= weight(r[k - 1].node_id, key));
                }
            } else {
                assert(s[i] == r[a] && s[j] == r[b]);
                assert(weight(r[a].node_id, key) >= weight(r[b].node_id, key));
            }
        }
    }
}

/// The ranking holds the nodes that were ranked.
pub proof fn ranking_keeps_nodes(nodes: Seq<NodeInfo>, key: ShardKey)
    ensures
        ranking(nodes, key).len() == nodes.len(),
        forall|i: int|
            0 <= i < nodes.len() ==> nodes.contains(#[trigger] ranking(nodes, key)[i]),
        forall|i: int|
            0 <= i < nodes.len() ==> ranking(nodes, key).contains(#[trigger] nodes[i]),
    decreases nodes.len(),
{
    if nodes.len() > 0 {
        let head = nodes.drop_last();
        let n = nodes.last();
        ranking_keeps_nodes(head, key);
        let r = ranking(head, key);
        let k = lemma_with_ranked(r, n, key);
        let s = ranking(nodes, key);
        assert(s == r.insert(k, n));
        assert forall|i: int| 0 <= i < nodes.len() implies nodes.contains(#[trigger] s[i]) by {
            if i == k {
                assert(nodes[nodes.len() - 1] == n);
            } else {
                let a = if i < k { i } else { i - 1 };
                assert(s[i] == r[a]);
                assert(head.contains(r[a]));
                let j = choose|j: int| 0 <= j < head.len() && head[j] == r[a];
                assert(nodes[j] == s[i]);
            }
        }
        assert forall|i: int| 0 <= i < nodes.len() implies s.contains(#[trigger] nodes[i]) by {
            if i == nodes.len() - 1 {
                assert(s[k] == n);
            } else {
                assert(head[i] == nodes[i]);
                assert(r.contains(head[i]));
                let j = choose|j: int| 0 <= j < r.len() && r[j] == head[i];
                assert(s[if j < k { j } else { j + 1 }] == nodes[i]);
            }
        }
    }
}

/// Replicas are nodes of the map that can serve the key, at most as many as asked for;
/// and if any node can serve the key, there is one.
pub proof fn replicas_are_eligible(
    nodes: Seq<NodeInfo>,
    key: ShardKey,
    now_ms: i64,
    ttl_ms: i64,
    factor: nat,
)
    ensures
        replicas(nodes, key, now_ms, ttl_ms, factor).len() <= factor,
        forall|i: int|
            0 <= i < replicas(nodes, key, now_ms, ttl_ms, factor).len() ==> eligible(
                #[trigger] replicas(nodes, key, now_ms, ttl_ms, factor)[i],
                key,
                now_ms,
                ttl_ms,
            ) && nodes.contains(replicas(nodes, key, now_ms, ttl_ms, factor)[i]),
        forall|k: int|
            0 <= k < nodes.len() && eligible(#[trigger] nodes[k], key, now_ms, ttl_ms) && factor > 0
                ==> replicas(nodes, key, now_ms, ttl_ms, factor).len() > 0,
{
    let p = |n: NodeInfo| eligible(n, key, now_ms, ttl_ms);
    let c = candidates(nodes, key, now_ms, ttl_ms);
    lemma_chosen(nodes, p);
    ranking_keeps_nodes(c, key);
    let r = replicas(nodes, key, now_ms, ttl_ms, factor);
    assert forall|i: int| 0 <= i < r.len() implies eligible(#[trigger] r[i], key, now_ms, ttl_ms)
        && nodes.contains(r[i]) by {
        assert(r[i] == ranking(c, key)[i]);
        assert(c.contains(ranking(c, key)[i]));
        let j = choose|j: int| 0 <= j < c.len() && c[j] == r[i];
        assert(p(c[j]));
    }
    assert forall|k: int|
        0 <= k < nodes.len() && eligible(#[trigger] nodes[k], key, now_ms, ttl_ms) && factor
            > 0 implies r.len() > 0 by {
        assert(p(nodes[k]));
        assert(c.contains(nodes[k]));
    }
}

/// Adding a node moves keys to that node only: every other replica of a key was one
/// before, and the first replica stays unless the new node takes its place.
pub proof fn adding_a_node_moves_keys_to_it_only(
    nodes: Seq<NodeInfo>,
    n: NodeInfo,
    key: ShardKey,
    now_ms: i64,
    ttl_ms: i64,
    factor: nat,
    i: int,
)
    requires
        0 <= i < replicas(nodes.push(n), key, now_ms, ttl_ms, factor).len(),
    ensures
        ({
            let before = replicas(nodes, key, now_ms, ttl_ms, factor);
            let after = replicas(nodes.push(n), key, now_ms, ttl_ms, factor);
            &&& after[i] == n || before.contains(after[i])
            &&& before.len() > 0 && after[0] != n ==> after[0] == before[0]
        }),
{
    let p = |x: NodeInfo| eligible(x, key, now_ms, ttl_ms);
    let c = candidates(nodes, key, now_ms, ttl_ms);
    let d = candidates(nodes.push(n), key, now_ms, ttl_ms);
    assert(nodes.push(n).drop_last() =~= nodes);
    let r = ranking(c, key);
    let before = replicas(nodes, key, now_ms, ttl_ms, factor);
    let after = replicas(nodes.push(n), key, now_ms, ttl_ms, factor);
    if p(n) {
        assert(d == c.push(n));
        assert(d.drop_last() =~= c);
        let k = lemma_with_ranked(r, n, key);
        let s = ranking(d, key);
        assert(s == r.insert(k, n));
        assert(after[i] == s[i]);
        if i != k {
            let a = if i < k { i } else { i - 1 };
            assert(s[i] == r[a]);
            assert(before[a] == r[a]);
        }
        if before.len() > 0 && after[0] != n {
            assert(s[0] == r[0]);
        }
    } else {
        assert(d == c);
        assert(before[i] == after[i]);
    }
}

} // verus!
