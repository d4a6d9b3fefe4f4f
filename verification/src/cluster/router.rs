//! Decide whether a query runs locally or fans out.
//!
//! Most queries are of one tenant. For these, the router picks the primary replica of the
//! tenant's partition: the query runs here if that is this node, else it is forwarded to
//! the replicas in order. Queries across tenants fan out to all alive workers.
use crate::catalog::mock::chosen;
use crate::cluster::node::{NodeId, NodeInfo};
use crate::cluster::shard::{has_node, lists_node, ShardKey, ShardMap, ShardMapView};
use vstd::prelude::*;

verus! {

#[derive(Clone, Debug)]
pub enum RouteDecision {
    /// Run the plan in this process.
    Local,
    /// Forward to a remote node; try each in order on connection failure.
    Remote(Vec<NodeInfo>),
    /// Run on every alive worker and merge. Includes self if local is a worker.
    FanOut { targets: Vec<NodeInfo>, include_local: bool },
}

/// The content of a decision.
pub ghost enum RouteView {
    Local,
    Remote(Seq<NodeInfo>),
    FanOut { targets: Seq<NodeInfo>, include_local: bool },
}

impl RouteDecision {
    pub open spec fn view(&self) -> RouteView {
        match self {
            RouteDecision::Local => RouteView::Local,
            RouteDecision::Remote(v) => RouteView::Remote(v@),
            RouteDecision::FanOut { targets, include_local } => RouteView::FanOut {
                targets: targets@,
                include_local: *include_local,
            },
        }
    }
}

/// Where a query of one tenant goes. Without an eligible worker it runs here, and if
/// forwarding fails it can too: every node reads object storage.
pub open spec fn tenant_route(map: ShardMapView, local: NodeId, key: ShardKey, now_ms: i64) -> RouteView {
    let r = map.replicas(key, now_ms);
    if r.len() == 0 || r[0].node_id == local {
        RouteView::Local
    } else {
        RouteView::Remote(r)
    }
}

/// Where a query across tenants goes.
pub open spec fn fan_out_route(map: ShardMapView, local: NodeId, now_ms: i64) -> RouteView {
    let workers = map.workers(now_ms);
    RouteView::FanOut {
        targets: chosen(workers, |n: NodeInfo| n.node_id != local),
        include_local: has_node(workers, local),
    }
}

pub struct QueryRouter {
    pub local_id: NodeId,
    pub map: ShardMap,
}

impl QueryRouter {
    pub fn new(local_id: NodeId, map: ShardMap) -> (r: Self)
        ensures
            r.local_id == local_id,
            r.map == map,
    {
        QueryRouter { local_id, map }
    }

    /// Single-tenant route. Common path; cheap.
    pub fn route_tenant(&self, key: ShardKey, now_ms: i64) -> (r: RouteDecision)
        ensures
            r@ == tenant_route(self.map@, self.local_id, key, now_ms),
    {
        let replicas = self.map.replicas_for(key, now_ms);
        if replicas.len() == 0 {
            return RouteDecision::Local;
        }
        if replicas[0].node_id.0 == self.local_id.0 {
            return RouteDecision::Local;
        }
        RouteDecision::Remote(replicas)
    }

    /// Cross-tenant / cross-shard fan-out.
    pub fn route_all(&self, now_ms: i64) -> (r: RouteDecision)
        ensures
            r@ == fan_out_route(self.map@, self.local_id, now_ms),
    {
        let all = self.map.all_alive_workers(now_ms);
        let include_local = lists_node(&all, self.local_id);
        let ghost local = self.local_id;
        let ghost p = |n: NodeInfo| n.node_id != local;
        let mut targets: Vec<NodeInfo> = Vec::new();
        let mut i: usize = 0;
        assert(all@.take(0) =~= Seq::empty());
        while i < all.len()
            invariant
                i <= all@.len(),
                local == self.local_id,
                p == (|n: NodeInfo| n.node_id != local),
                targets@ == chosen(all@.take(i as int), p),
            decreases all.len() - i,
        {
            proof {
                assert(all@.take(i + 1).drop_last() =~= all@.take(i as int));
                assert(all@.take(i + 1).last() == all@[i as int]);
            }
            if all[i].node_id.0 != self.local_id.0 {
                targets.push(all[i].copy());
            }
            i = i + 1;
        }
        assert(all@.take(i as int) =~= all@);
        RouteDecision::FanOut { targets, include_local }
    }
}

/// A fan-out never sends a query back to the node that it comes from.
pub proof fn fan_out_leaves_local_out(map: ShardMapView, local: NodeId, now_ms: i64, i: int)
    requires
        0 <= i < fan_out_route(map, local, now_ms)->targets.len(),
    ensures
        fan_out_route(map, local, now_ms)->targets[i].node_id != local,
{
    let p = |n: NodeInfo| n.node_id != local;
    crate::catalog::laws::lemma_chosen(map.workers(now_ms), p);
    assert(p(chosen(map.workers(now_ms), p)[i]));
}

} // verus!
