//! Node registry: writes this node's heartbeats into the catalog and reads the cluster
//! back. The catalog is the source of truth; the registry keeps a shard map of it.
use crate::catalog::mock::{with_node, CatalogView, MockCatalog};
use crate::catalog::model::NodeRow;
use crate::cluster::node::{NodeId, NodeInfo, NodeRole};
use crate::cluster::shard::{ShardMap, ShardMapView};
use crate::common::errors::ZenError;
use crate::common::time::now_millis;
use vstd::prelude::*;
use vstd::string::*;

verus! {

/// How often a node writes its heartbeat.
pub const HEARTBEAT_PERIOD_MS: u64 = 500;

/// The node of a row, if its role is known.
pub open spec fn is_node_of(row: NodeRow, n: NodeInfo) -> bool {
    &&& n.node_id == NodeId(row.node_id)
    &&& n.endpoint == row.endpoint
    &&& NodeRole::named(row.role@) == Some(n.role)
    &&& n.shards == row.shards
    &&& n.last_heartbeat_ms == row.last_heartbeat_ms
}

/// The nodes of the rows whose roles are known.
pub open spec fn are_nodes_of(rows: Seq<NodeRow>, nodes: Seq<NodeInfo>) -> bool
    decreases rows.len(),
{
    if rows.len() == 0 {
        nodes.len() == 0
    } else if NodeRole::named(rows.last().role@) is Some {
        &&& nodes.len() > 0
        &&& is_node_of(rows.last(), nodes.last())
        &&& are_nodes_of(rows.drop_last(), nodes.drop_last())
    } else {
        are_nodes_of(rows.drop_last(), nodes)
    }
}

/// The nodes of the catalog's rows. Rows with unknown roles are left out.
pub fn nodes_from_rows(rows: &Vec<NodeRow>) -> (r: Vec<NodeInfo>)
    ensures
        are_nodes_of(rows@, r@),
{
    let mut out: Vec<NodeInfo> = Vec::new();
    let mut i: usize = 0;
    assert(rows@.take(0) =~= Seq::empty());
    while i < rows.len()
        invariant
            i <= rows@.len(),
            are_nodes_of(rows@.take(i as int), out@),
        decreases rows.len() - i,
    {
        let row = &rows[i];
        let ghost before = out@;
        proof {
            assert(rows@.take(i + 1).drop_last() =~= rows@.take(i as int));
            assert(rows@.take(i + 1).last() == *row);
        }
        match NodeRole::parse(row.role.as_str()) {
            Some(role) => {
                out.push(
                    NodeInfo {
                        node_id: NodeId(row.node_id),
                        endpoint: row.endpoint.clone(),
                        role,
                        shards: row.shards.clone(),
                        last_heartbeat_ms: row.last_heartbeat_ms,
                    },
                );
                assert(out@.drop_last() =~= before);
            },
            None => {},
        }
        i = i + 1;
    }
    assert(rows@.take(i as int) =~= rows@);
    out
}

/// The current time in milliseconds.
pub fn now_ms() -> i64 {
    now_millis()
}

pub struct NodeRegistry {
    local_id: NodeId,
    local_endpoint: String,
    local_role: NodeRole,
    local_shards: String,
    map: ShardMap,
    replication_factor: usize,
    heartbeat_ttl_ms: i64,
}

/// The content of a registry.
#[verifier::ext_equal]
pub ghost struct RegistryView {
    pub local_id: NodeId,
    pub local_endpoint: Seq<char>,
    pub local_role: NodeRole,
    pub local_shards: Seq<char>,
    pub map: ShardMapView,
    pub replication_factor: usize,
    pub heartbeat_ttl_ms: i64,
}

impl RegistryView {
    /// The row that the node writes at that time.
    pub open spec fn is_heartbeat(self, now_ms: i64, row: NodeRow) -> bool {
        &&& row.node_id == self.local_id.0
        &&& row.endpoint@ == self.local_endpoint
        &&& row.role@ == self.local_role.text()
        &&& row.shards@ == self.local_shards
        &&& row.last_heartbeat_ms == now_ms
    }

    /// The registry after it read these rows.
    pub open spec fn is_refreshed(self, rows: Seq<NodeRow>, after: RegistryView) -> bool {
        &&& after == (RegistryView { map: after.map, ..self })
        &&& are_nodes_of(rows, after.map.nodes)
        &&& after.map.replication_factor == (if self.replication_factor == 0 {
            1
        } else {
            self.replication_factor as nat
        })
        &&& after.map.heartbeat_ttl_ms == self.heartbeat_ttl_ms
    }
}

impl NodeRegistry {
    pub closed spec fn view(&self) -> RegistryView {
        RegistryView {
            local_id: self.local_id,
            local_endpoint: self.local_endpoint@,
            local_role: self.local_role,
            local_shards: self.local_shards@,
            map: self.map@,
            replication_factor: self.replication_factor,
            heartbeat_ttl_ms: self.heartbeat_ttl_ms,
        }
    }

    /// A registry that knows of no nodes yet.
    pub fn new(
        local_id: NodeId,
        local_endpoint: String,
        local_role: NodeRole,
        local_shards: String,
        replication_factor: usize,
        heartbeat_ttl_ms: i64,
    ) -> (r: Self)
        ensures
            r@ == (RegistryView {
                local_id,
                local_endpoint: local_endpoint@,
                local_role,
                local_shards: local_shards@,
                map: ShardMapView {
                    nodes: Seq::empty(),
                    replication_factor: if replication_factor == 0 {
                        1
                    } else {
                        replication_factor as nat
                    },
                    heartbeat_ttl_ms,
                },
                replication_factor,
                heartbeat_ttl_ms,
            }),
    {
        NodeRegistry {
            local_id,
            local_endpoint,
            local_role,
            local_shards,
            map: ShardMap::new(Vec::new(), replication_factor, heartbeat_ttl_ms),
            replication_factor,
            heartbeat_ttl_ms,
        }
    }

    pub fn local_id(&self) -> (r: NodeId)
        ensures
            r == self@.local_id,
    {
        self.local_id
    }

    pub fn local_role(&self) -> (r: NodeRole)
        ensures
            r == self@.local_role,
    {
        self.local_role
    }

    pub fn shard_map(&self) -> (r: ShardMap)
        ensures
            r@ == self@.map,
    {
        self.map.copy()
    }

    /// Current epoch ms helper exposed for routers/tests.
    pub fn now_ms(&self) -> i64 {
        now_ms()
    }

    /// The row that this node writes into the catalog at that time.
    pub fn heartbeat(&self, now_ms: i64) -> (r: NodeRow)
        ensures
            self@.is_heartbeat(now_ms, r),
    {
        NodeRow {
            node_id: self.local_id.0,
            endpoint: self.local_endpoint.clone(),
            role: String::from_str(self.local_role.as_str()),
            shards: self.local_shards.clone(),
            last_heartbeat_ms: now_ms,
        }
    }

    /// Takes over the nodes that the catalog lists.
    pub fn refresh(&mut self, rows: &Vec<NodeRow>)
        ensures
            old(self)@.is_refreshed(rows@, final(self)@),
    {
        let nodes = nodes_from_rows(rows);
        self.map = ShardMap::new(nodes, self.replication_factor, self.heartbeat_ttl_ms);
    }

    /// One heartbeat and one refresh against an in-memory catalog.
    pub fn tick(&mut self, catalog: &mut MockCatalog, now_ms: i64) -> (r: Result<(), ZenError>)
        ensures
            r is Ok,
            exists|row: NodeRow| #[trigger] ticked(
                old(self)@,
                final(self)@,
                old(catalog)@,
                final(catalog)@,
                now_ms,
                row,
            ),
    {
        let row = self.heartbeat(now_ms);
        let ghost written = row;
        let ghost before = self@;
        let ghost before_catalog = catalog@;
        match catalog.upsert_node(row) {
            Ok(()) => {},
            Err(e) => {
                return Err(e);
            },
        }
        let rows = match catalog.list_nodes() {
            Ok(rows) => rows,
            Err(e) => {
                return Err(e);
            },
        };
        self.refresh(&rows);
        assert(ticked(before, self@, before_catalog, catalog@, now_ms, written));
        Ok(())
    }
}

/// A tick wrote the heartbeat row into the catalog, and the registry took over the nodes
/// that the catalog then listed.
pub open spec fn ticked(
    before: RegistryView,
    after: RegistryView,
    catalog_before: CatalogView,
    catalog_after: CatalogView,
    now_ms: i64,
    row: NodeRow,
) -> bool {
    &&& before.is_heartbeat(now_ms, row)
    &&& catalog_after == (CatalogView {
        nodes: with_node(catalog_before.nodes, row),
        ..catalog_before
    })
    &&& before.is_refreshed(catalog_after.nodes, after)
}

proof fn lemma_same_nodes(rows: Seq<NodeRow>, a: Seq<NodeInfo>, b: Seq<NodeInfo>)
    requires
        are_nodes_of(rows, a),
        are_nodes_of(rows, b),
    ensures
        a == b,
    decreases rows.len(),
{
    if rows.len() == 0 {
        assert(a =~= b);
    } else if NodeRole::named(rows.last().role@) is Some {
        lemma_same_nodes(rows.drop_last(), a.drop_last(), b.drop_last());
        assert(a =~= a.drop_last().push(a.last()));
        assert(b =~= b.drop_last().push(b.last()));
    } else {
        lemma_same_nodes(rows.drop_last(), a, b);
    }
}

/// Registries that read the same rows have the same nodes, and with the same settings the
/// same shard map: every node computes the same routing without coordination.
pub proof fn registries_converge(
    r1: RegistryView,
    r2: RegistryView,
    rows: Seq<NodeRow>,
    after1: RegistryView,
    after2: RegistryView,
)
    requires
        r1.is_refreshed(rows, after1),
        r2.is_refreshed(rows, after2),
    ensures
        after1.map.nodes == after2.map.nodes,
        r1.replication_factor == r2.replication_factor && r1.heartbeat_ttl_ms
            == r2.heartbeat_ttl_ms ==> after1.map == after2.map,
{
    lemma_same_nodes(rows, after1.map.nodes, after2.map.nodes);
}

} // verus!
