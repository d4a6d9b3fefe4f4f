use zenithdb::catalog::mock::MockCatalog;
use zenithdb::catalog::model::NodeRow;
use zenithdb::cluster::merge::{merge_result_sets, ResultRow, ResultSet};
use zenithdb::cluster::node::{NodeId, NodeInfo, NodeRole, NodeStatus};
use zenithdb::cluster::registry::NodeRegistry;
use zenithdb::cluster::remote::{
    blocked_endpoint, check_status, internal_query_url, is_endpoint_allowed, is_target_allowed,
    Forwarding,
    RemoteError,
};
use zenithdb::cluster::router::{QueryRouter, RouteDecision};
use zenithdb::cluster::shard::{hrw_score, shard_filter_matches, ShardKey, ShardMap};

fn rs(rows: usize, scanned: u32) -> ResultSet {
    let mut out = ResultSet {
        columns: vec!["x".into()],
        rows: (0..rows)
            .map(|i| ResultRow {
                fields: vec![("x".to_string(), format!("{i}").into_bytes())],
            })
            .collect(),
        ..Default::default()
    };
    out.stats.rows_returned = rows as u32;
    out.stats.segments_scanned = scanned;
    out
}

#[test]
fn merge_concats_and_sums() {
    let merged = merge_result_sets(vec![rs(3, 1), rs(2, 2), rs(5, 4)], None);
    assert_eq!(merged.rows.len(), 10);
    assert_eq!(merged.stats.segments_scanned, 7);
    assert_eq!(merged.stats.rows_returned, 10);
}

#[test]
fn merge_respects_limit() {
    let merged = merge_result_sets(vec![rs(3, 1), rs(5, 1)], Some(4));
    assert_eq!(merged.rows.len(), 4);
    assert_eq!(merged.stats.rows_returned, 4);
}

#[test]
fn merge_empty_input() {
    let merged = merge_result_sets(Vec::new(), Some(10));
    assert_eq!(merged.rows.len(), 0);
}

#[test]
fn merge_keeps_order_and_columns() {
    let merged = merge_result_sets(vec![rs(2, 0), rs(3, 0)], None);
    assert_eq!(merged.columns, vec!["x".to_string()]);
    let values: Vec<Vec<u8>> = merged.rows.iter().map(|r| r.fields[0].1.clone()).collect();
    assert_eq!(
        values,
        vec![
            b"0".to_vec(),
            b"1".to_vec(),
            b"0".to_vec(),
            b"1".to_vec(),
            b"2".to_vec()
        ]
    );
}

#[test]
fn role_parse_roundtrip() {
    for r in [
        NodeRole::Coordinator,
        NodeRole::Worker,
        NodeRole::Compactor,
        NodeRole::All,
    ] {
        assert_eq!(NodeRole::parse(r.as_str()), Some(r));
    }
    assert!(NodeRole::parse("frobnicator").is_none());
}

#[test]
fn node_status_within_ttl() {
    let n = NodeInfo {
        node_id: NodeId::new(),
        endpoint: "http://a:8080".into(),
        role: NodeRole::All,
        shards: "*".into(),
        last_heartbeat_ms: 1000,
    };
    assert_eq!(n.status(1500, 1000), NodeStatus::Alive);
    assert_eq!(n.status(2500, 1000), NodeStatus::Stale);
}

#[test]
fn role_capabilities() {
    assert!(NodeRole::Worker.runs_scans());
    assert!(NodeRole::All.runs_scans());
    assert!(!NodeRole::Coordinator.runs_scans());
    assert!(!NodeRole::Compactor.runs_scans());

    assert!(NodeRole::Coordinator.accepts_client_queries());
    assert!(NodeRole::All.accepts_client_queries());
    assert!(!NodeRole::Worker.accepts_client_queries());
}

#[test]
fn node_ids_have_uuid_form() {
    let id = NodeId::new();
    let u = uuid::Uuid::from_u128(id.0);
    assert_eq!(u.get_version_num(), 4);
    assert_eq!(uuid::Uuid::from_u128(NodeId::default().0).get_version_num(), 4);
    assert_eq!(id.to_string(), u.to_string());
    assert_eq!(&id.as_bytes(), u.as_bytes());
    assert_eq!(NodeId::from_bytes(id.as_bytes()), id);
    assert_eq!(
        NodeId(0x0123_4567_89ab_cdef_0123_4567_89ab_cdef).to_string(),
        "01234567-89ab-cdef-0123-456789abcdef"
    );
}

fn registry_for(endpoint: &str, role: NodeRole, ttl_ms: i64) -> NodeRegistry {
    let id = NodeId::new();
    NodeRegistry::new(id, endpoint.to_string(), role, "*".into(), 1, ttl_ms)
}

fn tick(r: &mut NodeRegistry, cat: &mut MockCatalog) {
    let now = r.now_ms();
    r.tick(cat, now).unwrap();
}

#[test]
fn tick_upserts_node_into_catalog() {
    let mut cat = MockCatalog::new();
    let mut r = registry_for("http://a:8080", NodeRole::All, 5_000);
    tick(&mut r, &mut cat);
    let rows = cat.list_nodes().unwrap();
    assert_eq!(rows.len(), 1, "tick should upsert exactly one node row");
    assert_eq!(rows[0].endpoint, "http://a:8080");
    assert_eq!(rows[0].role, "all");
    assert_eq!(rows[0].shards, "*");
    assert_eq!(NodeId(rows[0].node_id).as_bytes(), r.local_id().as_bytes());
}

#[test]
fn shard_map_reflects_all_registered_nodes_after_tick() {
    let mut cat = MockCatalog::new();

    let mut r1 = registry_for("http://a:8080", NodeRole::All, 5_000);
    let mut r2 = registry_for("http://b:8080", NodeRole::Worker, 5_000);
    let mut r3 = registry_for("http://c:8080", NodeRole::Coordinator, 5_000);
    tick(&mut r1, &mut cat);
    tick(&mut r2, &mut cat);
    tick(&mut r3, &mut cat);

    // After r3's tick its local view sees all three rows.
    let map = r3.shard_map();
    assert_eq!(
        map.nodes().len(),
        3,
        "shard map should contain all three registered nodes"
    );
}

#[test]
fn stale_node_excluded_from_all_alive_workers() {
    let mut cat = MockCatalog::new();

    let ttl_ms = 1_000;
    let mut r1 = registry_for("http://alive:8080", NodeRole::All, ttl_ms);
    let mut r2 = registry_for("http://stale:8080", NodeRole::All, ttl_ms);
    tick(&mut r1, &mut cat);
    tick(&mut r2, &mut cat);
    // One more tick syncs r1 with the catalog so it sees both rows.
    tick(&mut r1, &mut cat);

    // Both registries should see two alive workers right after tick.
    let map = r1.shard_map();
    let now = r1.now_ms();
    assert_eq!(map.all_alive_workers(now).len(), 2);

    // Now manually backdate r2's row in the catalog by a long time so
    // it exceeds the ttl when observed.
    let stale_ts = now - 10 * ttl_ms;
    cat.upsert_node(NodeRow {
        node_id: r2.local_id().0,
        endpoint: "http://stale:8080".into(),
        role: "all".into(),
        shards: "*".into(),
        last_heartbeat_ms: stale_ts,
    })
    .unwrap();
    // Refresh r1's local view by ticking again.
    tick(&mut r1, &mut cat);
    let map = r1.shard_map();
    let now = r1.now_ms();
    let alive = map.all_alive_workers(now);
    assert_eq!(alive.len(), 1, "stale node must be excluded");
    assert_eq!(alive[0].endpoint, "http://alive:8080");
}

#[test]
fn local_id_is_stable_and_round_trips_through_catalog() {
    let mut cat = MockCatalog::new();
    let mut r = registry_for("http://a:8080", NodeRole::All, 5_000);
    let want = r.local_id();
    // Multiple calls return the same id.
    assert_eq!(r.local_id(), want);
    // After a tick, the catalog row carries the same id bytes.
    tick(&mut r, &mut cat);
    let rows = cat.list_nodes().unwrap();
    assert_eq!(NodeId(rows[0].node_id).as_bytes(), want.as_bytes());
}

#[test]
fn two_registries_converge_on_same_shard_map() {
    let mut cat = MockCatalog::new();
    let mut r1 = registry_for("http://a:8080", NodeRole::All, 5_000);
    let mut r2 = registry_for("http://b:8080", NodeRole::All, 5_000);

    // Both heartbeat once.
    tick(&mut r1, &mut cat);
    tick(&mut r2, &mut cat);

    // Now they each refresh their shard view.
    tick(&mut r1, &mut cat);
    tick(&mut r2, &mut cat);

    let m1 = r1.shard_map();
    let m2 = r2.shard_map();
    assert_eq!(m1.nodes().len(), 2);
    assert_eq!(m2.nodes().len(), 2);

    let mut e1: Vec<_> = m1.nodes().iter().map(|n| n.endpoint.clone()).collect();
    let mut e2: Vec<_> = m2.nodes().iter().map(|n| n.endpoint.clone()).collect();
    e1.sort();
    e2.sort();
    assert_eq!(
        e1, e2,
        "after both nodes have ticked twice their shard maps must agree"
    );
}

#[test]
fn rows_with_an_unknown_role_are_left_out() {
    let mut r = registry_for("http://a:8080", NodeRole::All, 5_000);
    let row = |id: u128, role: &str| NodeRow {
        node_id: id,
        endpoint: "e".into(),
        role: role.into(),
        shards: "*".into(),
        last_heartbeat_ms: 0,
    };
    r.refresh(&vec![row(1, "worker"), row(2, "janitor"), row(3, "all")]);
    let ids: Vec<u128> = r.shard_map().nodes().iter().map(|n| n.node_id.0).collect();
    assert_eq!(ids, vec![1, 3]);
}

#[test]
fn allows_loopback() {
    assert!(is_endpoint_allowed("http://127.0.0.1:8080"));
    assert!(is_endpoint_allowed("http://localhost:9000"));
}

#[test]
fn allows_rfc1918() {
    assert!(is_endpoint_allowed("https://10.0.0.5:8080"));
    assert!(is_endpoint_allowed("https://192.168.1.1:8080"));
}

#[test]
fn blocks_imds() {
    assert!(!is_endpoint_allowed(
        "http://169.254.169.254/latest/meta-data/"
    ));
    assert!(!is_endpoint_allowed("http://metadata.google.internal"));
    assert!(!is_endpoint_allowed("http://[fe80::1]:80"));
}

#[test]
fn blocks_non_http_schemes() {
    assert!(!is_endpoint_allowed("file:///etc/passwd"));
    assert!(!is_endpoint_allowed("ftp://attacker"));
}

#[test]
fn targets_by_scheme_and_host() {
    assert!(is_target_allowed("http", &Some("node1".to_string())));
    assert!(!is_target_allowed("gopher", &Some("node1".to_string())));
    assert!(!is_target_allowed("http", &None));
    assert!(!is_endpoint_allowed("not a url"));
    assert!(!is_endpoint_allowed("http://[fd00:ec2::254]/"));
}

#[test]
fn remote_errors_have_their_text() {
    assert_eq!(
        RemoteError::AllReplicasFailed { last: "x".into() }.to_string(),
        "all replicas failed: last=x"
    );
    assert_eq!(RemoteError::Transport("x".into()).to_string(), "transport: x");
    assert_eq!(
        RemoteError::Status {
            status: 503,
            body: "busy".into()
        }
        .to_string(),
        "status 503: busy"
    );
    assert_eq!(RemoteError::Decode("x".into()).to_string(), "decode: x");
}

#[test]
fn forwarding_tries_the_replicas_in_order() {
    let node = |i: u8| n(i, NodeRole::All, "*", 0);
    let mut f = Forwarding::new(vec![node(1), node(2)]);
    assert_eq!(f.target(), Some("http://node1:8080"));
    f.failed(&blocked_endpoint("http://node1:8080"));
    assert_eq!(f.target(), Some("http://node2:8080"));
    f.failed(&blocked_endpoint("http://node2:8080"));
    assert_eq!(f.target(), None);
    match f.give_up() {
        RemoteError::AllReplicasFailed { last } => {
            assert_eq!(last, blocked_endpoint("http://node2:8080").to_string())
        }
        _ => panic!("expected that all replicas failed"),
    }
    assert!(matches!(
        Forwarding::new(vec![]).give_up(),
        RemoteError::AllReplicasFailed { .. }
    ));
    assert_eq!(
        internal_query_url("http://node1:8080"),
        "http://node1:8080/v1/internal/query"
    );
}

fn n(id: u8, role: NodeRole, shards: &str, hb: i64) -> NodeInfo {
    let mut bytes = [0u8; 16];
    bytes[0] = id;
    NodeInfo {
        node_id: NodeId::from_bytes(bytes),
        endpoint: format!("http://node{id}:8080"),
        role,
        shards: shards.into(),
        last_heartbeat_ms: hb,
    }
}

#[test]
fn route_tenant_local_when_primary() {
    // Build a map where node 1 is the only candidate; route from node 1.
    let local = NodeId::from_bytes([1u8; 16]);
    let nodes = vec![NodeInfo {
        node_id: local,
        endpoint: "http://1:8080".into(),
        role: NodeRole::All,
        shards: "*".into(),
        last_heartbeat_ms: 1000,
    }];
    let map = ShardMap::new(nodes, 1, 500);
    let router = QueryRouter::new(local, map);
    let key = ShardKey::new(1, 0);
    match router.route_tenant(key, 1000) {
        RouteDecision::Local => {}
        other => panic!("expected Local, got {other:?}"),
    }
}

#[test]
fn route_tenant_remote_when_not_primary() {
    let n1 = n(1, NodeRole::All, "*", 1000);
    let n2 = n(2, NodeRole::All, "*", 1000);
    let n3 = n(3, NodeRole::All, "*", 1000);
    let nodes = vec![n1.clone(), n2.clone(), n3.clone()];
    let map = ShardMap::new(nodes, 2, 500);
    // Try a few keys until we find one where local (n3) isn't primary.
    let local = n3.node_id;
    let router = QueryRouter::new(local, map);
    let mut found_remote = false;
    for t in 0..50 {
        let key = ShardKey::new(t as u64, 0);
        if let RouteDecision::Remote(_) = router.route_tenant(key, 1000) {
            found_remote = true;
            break;
        }
    }
    assert!(found_remote, "expected at least one Remote routing");
}

#[test]
fn route_all_separates_local_from_remotes() {
    let n1 = n(1, NodeRole::All, "*", 1000);
    let n2 = n(2, NodeRole::All, "*", 1000);
    let n3 = n(3, NodeRole::All, "*", 1000);
    let nodes = vec![n1.clone(), n2.clone(), n3.clone()];
    let map = ShardMap::new(nodes, 1, 500);
    let local = n2.node_id;
    let router = QueryRouter::new(local, map);
    match router.route_all(1000) {
        RouteDecision::FanOut {
            targets,
            include_local,
        } => {
            assert!(include_local);
            assert_eq!(targets.len(), 2);
            assert!(!targets.iter().any(|n| n.node_id == local));
        }
        other => panic!("expected FanOut, got {other:?}"),
    }
}

#[test]
fn replicas_returns_top_k_alive_workers() {
    let nodes = vec![
        n(1, NodeRole::All, "*", 1000),
        n(2, NodeRole::All, "*", 1000),
        n(3, NodeRole::All, "*", 1000),
        n(4, NodeRole::All, "*", 1000),
        n(5, NodeRole::Compactor, "*", 1000), // not a scan worker
        n(6, NodeRole::All, "*", 0),          // stale
    ];
    let m = ShardMap::new(nodes, 2, 500);
    let r = m.replicas_for(ShardKey::new(1, 0), 1000);
    assert_eq!(r.len(), 2);
    // No compactor or stale node returned.
    for nn in &r {
        assert!(nn.role.runs_scans());
        assert!(nn.last_heartbeat_ms >= 500);
    }
}

#[test]
fn replicas_have_the_highest_scores() {
    let nodes: Vec<NodeInfo> = (1u8..=7).map(|i| n(i, NodeRole::All, "*", 1000)).collect();
    let m = ShardMap::new(nodes.clone(), 3, 500);
    let key = ShardKey::new(12, 3);
    let mut scores: Vec<u64> = nodes.iter().map(|x| hrw_score(x.node_id, key)).collect();
    scores.sort_by(|a, b| b.cmp(a));
    let got: Vec<u64> = m
        .replicas_for(key, 1000)
        .iter()
        .map(|x| hrw_score(x.node_id, key))
        .collect();
    assert_eq!(got, scores[..3].to_vec());
    assert_eq!(m.replication_factor(), 3);
    assert_eq!(m.heartbeat_ttl_ms(), 500);
}

#[test]
fn shard_filter_tenant_list() {
    let key_t1 = ShardKey::new(1, 0);
    let key_t9 = ShardKey::new(9, 0);
    assert!(shard_filter_matches("*", key_t1));
    assert!(shard_filter_matches("tenant=1,2,3", key_t1));
    assert!(!shard_filter_matches("tenant=1,2,3", key_t9));
    assert!(shard_filter_matches("tenant=5..15", key_t9));
    assert!(!shard_filter_matches("tenant=5..15", key_t1));
    assert!(!shard_filter_matches("garbage", key_t1));
}

#[test]
fn shard_filter_restricts_replicas() {
    let nodes = vec![
        n(1, NodeRole::All, "tenant=100", 1000),
        n(2, NodeRole::All, "tenant=200", 1000),
        n(3, NodeRole::All, "*", 1000),
    ];
    let m = ShardMap::new(nodes, 3, 500);
    let r100 = m.replicas_for(ShardKey::new(100, 0), 1000);
    // Eligible: node1 (matches tenant=100) and node3 (wildcard). node2 excluded.
    let ids: Vec<u8> = r100.iter().map(|n| n.node_id.as_bytes()[0]).collect();
    assert!(ids.contains(&1));
    assert!(ids.contains(&3));
    assert!(!ids.contains(&2));
}

#[test]
fn hrw_is_deterministic() {
    let a = hrw_score(NodeId::from_bytes([7u8; 16]), ShardKey::new(1, 0));
    let b = hrw_score(NodeId::from_bytes([7u8; 16]), ShardKey::new(1, 0));
    assert_eq!(a, b);
    // Different shards yield different scores (with overwhelming probability).
    let c = hrw_score(NodeId::from_bytes([7u8; 16]), ShardKey::new(2, 0));
    assert_ne!(a, c);
}

#[test]
fn rendezvous_minimal_remap_when_node_added() {
    // Add one node; expect ~1/N of keys to remap.
    let base: Vec<NodeInfo> = (1u8..=10).map(|i| n(i, NodeRole::All, "*", 1000)).collect();
    let mut extended = base.clone();
    extended.push(n(11, NodeRole::All, "*", 1000));
    let m1 = ShardMap::new(base, 1, 500);
    let m2 = ShardMap::new(extended, 1, 500);

    let mut moved = 0;
    let total = 1000;
    for t in 0..total {
        let k = ShardKey::new(t as u64, 0);
        let r1 = m1.replicas_for(k, 1000);
        let r2 = m2.replicas_for(k, 1000);
        if r1[0].node_id != r2[0].node_id {
            moved += 1;
        }
    }
    // 1/11 = 9 % expected; allow generous slack for randomness.
    let pct = moved as f64 / total as f64;
    assert!(
        pct > 0.03 && pct < 0.20,
        "expected ~9% remap, got {pct:.3}"
    );
}

#[test]
fn a_new_node_takes_keys_only_for_itself() {
    let base: Vec<NodeInfo> = (1u8..=5).map(|i| n(i, NodeRole::All, "*", 1000)).collect();
    let mut extended = base.clone();
    extended.push(n(6, NodeRole::All, "*", 1000));
    let new_id = extended[5].node_id;
    let m1 = ShardMap::new(base, 1, 500);
    let m2 = ShardMap::new(extended, 1, 500);
    let keys: Vec<ShardKey> = (0..300).map(|t| ShardKey::new(t, 0)).collect();
    for k in &keys {
        let before = m1.replicas_for(*k, 1000)[0].node_id;
        let after = m2.replicas_for(*k, 1000)[0].node_id;
        assert!(after == before || after == new_id);
    }
    let owned = m2.shards_owned_by(new_id, &keys, 1000);
    assert!(!owned.is_empty());
    for k in owned {
        assert_eq!(m2.replicas_for(k, 1000)[0].node_id, new_id);
    }
}

#[test]
fn answers_are_read_on_success_only() {
    assert!(check_status(200, "x").is_ok());
    assert!(check_status(299, "").is_ok());
    for status in [199u16, 300, 404, 503] {
        match check_status(status, "why") {
            Err(RemoteError::Status { status: s, body }) => {
                assert_eq!((s, body.as_str()), (status, "why"))
            }
            _ => panic!("expected an error"),
        }
    }
}
