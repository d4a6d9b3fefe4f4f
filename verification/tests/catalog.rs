use zenithdb::catalog::codec::{fp_from_bytes, fp_to_bytes, trace_from_bytes};
use zenithdb::catalog::mock::MockCatalog;
use zenithdb::catalog::model::{NodeRow, SegmentRow, WalObjectBounds, WalObjectRow};
use zenithdb::catalog::stored::{
    lease_decision, node_from_row, segment_from_row, wal_from_row, StoredNode, StoredSegment,
    StoredWalObject,
};
use zenithdb::common::errors::ZenError;
use zenithdb::common::record::SpanRecord;
use zenithdb::common::types::{CommitId, PartitionId, SchemaFingerprint, TenantId, TraceId};

/// A time well after the epoch, in microseconds.
const NOW: i64 = 1_700_000_000_000_000;

fn segment(id: u128, tenant: u64, key: &str, time_min: i64, time_max: i64) -> SegmentRow {
    SegmentRow {
        segment_id: id,
        tenant_id: TenantId(tenant),
        partition_id: PartitionId(0),
        object_key: key.into(),
        level: 0,
        byte_count: 1,
        row_count: 1,
        time_min,
        time_max,
        trace_id_min: TraceId([0u8; 16]),
        trace_id_max: TraceId([0xff; 16]),
        commit_id_min: CommitId(1),
        commit_id_max: CommitId(1),
        schema_fingerprint: SchemaFingerprint(0),
        rowgroup_index: vec![],
        superseded_at: None,
        created_at: NOW,
    }
}

fn wal(i: u64, partition: u32) -> WalObjectRow {
    WalObjectRow {
        wal_id: i as u128,
        tenant_id: TenantId(1),
        partition_id: PartitionId(partition),
        object_key: format!("wal/x/{i}.wal"),
        commit_id_min: CommitId(i),
        commit_id_max: CommitId(i),
        byte_count: 1024,
        row_count: 100,
        time_min: 0,
        time_max: 0,
        trace_id_min: TraceId([0u8; 16]),
        trace_id_max: TraceId([0xff; 16]),
        schema_fingerprint: SchemaFingerprint(0xfeed),
        consumed_at: None,
        created_at: NOW,
    }
}

#[test]
fn ensure_tenant_idempotent() {
    let mut c = MockCatalog::new();
    c.ensure_tenant(TenantId(1), "a").unwrap();
    c.ensure_tenant(TenantId(1), "a").unwrap();
}

#[test]
fn mock_next_commit_id_monotonic_concurrent() {
    let rt = tokio::runtime::Builder::new_multi_thread().build().unwrap();
    rt.block_on(async {
        let c = std::sync::Arc::new(std::sync::Mutex::new(MockCatalog::new()));
        c.lock()
            .unwrap()
            .ensure_partition(TenantId(1), PartitionId(0))
            .unwrap();
        let mut handles = Vec::new();
        for _ in 0..16 {
            let c2 = c.clone();
            handles.push(tokio::spawn(async move {
                let mut out = Vec::new();
                for _ in 0..32 {
                    out.push(
                        c2.lock()
                            .unwrap()
                            .next_commit_id(TenantId(1), PartitionId(0))
                            .unwrap()
                            .0,
                    );
                }
                out
            }));
        }
        let mut all: Vec<u64> = Vec::new();
        for h in handles {
            all.extend(h.await.unwrap());
        }
        all.sort();
        for w in all.windows(2) {
            assert!(w[0] != w[1], "duplicate commit_id {}", w[0]);
        }
        assert_eq!(all.len(), 512);
    });
}

#[test]
fn commit_ids_of_partitions_are_apart() {
    let mut c = MockCatalog::new();
    let (t, a, b) = (TenantId(1), PartitionId(0), PartitionId(1));
    let first = c.next_commit_id(t, a).unwrap().0;
    assert_eq!(c.next_commit_id(t, a).unwrap().0, first + 1);
    assert_eq!(c.next_commit_id(t, b).unwrap().0, first);
    assert_eq!(c.next_commit_id(TenantId(2), a).unwrap().0, first);
    assert_eq!(c.next_commit_id(t, a).unwrap().0, first + 2);
}

#[test]
fn mock_segment_register_list_in_range() {
    let mut c = MockCatalog::new();
    c.ensure_tenant(TenantId(1), "x").unwrap();
    c.ensure_partition(TenantId(1), PartitionId(0)).unwrap();
    c.register_segment(segment(77, 1, "k", 1000, 2000)).unwrap();
    let in_range = c
        .list_segments_in_range(TenantId(1), PartitionId(0), 500, 1500)
        .unwrap();
    assert_eq!(in_range.len(), 1);
    let out_of_range = c
        .list_segments_in_range(TenantId(1), PartitionId(0), 3000, 4000)
        .unwrap();
    assert_eq!(out_of_range.len(), 0);
}

#[test]
fn sqlite_segment_register_list_in_range() {
    let mut c = MockCatalog::new();
    c.ensure_tenant(TenantId(1), "t").unwrap();
    c.ensure_partition(TenantId(1), PartitionId(0)).unwrap();
    for i in 0..3i64 {
        c.register_segment(segment(
            i as u128,
            1,
            &format!("seg/{i}.zseg"),
            i * 1000,
            i * 1000 + 999,
        ))
        .unwrap();
    }
    let list = c
        .list_segments_in_range(TenantId(1), PartitionId(0), 1500, 1500)
        .unwrap();
    assert_eq!(list.len(), 1);
    assert_eq!(list[0].time_min, 1000);
}

#[test]
fn mock_lease_lifecycle() {
    let mut c = MockCatalog::new();
    let (t, p) = (TenantId(1), PartitionId(0));
    c.acquire_compaction_lease(t, p, "w1", 60, NOW).unwrap();
    // Different worker can't take it while held.
    assert!(c.acquire_compaction_lease(t, p, "w2", 60, NOW).is_err());
    // Same worker can refresh.
    c.acquire_compaction_lease(t, p, "w1", 60, NOW).unwrap();
    // Release lets w2 acquire.
    c.release_compaction_lease(t, p, "w1").unwrap();
    c.acquire_compaction_lease(t, p, "w2", 60, NOW).unwrap();
}

#[test]
fn sqlite_lease_lifecycle() {
    let mut c = MockCatalog::new();
    let (t, p) = (TenantId(1), PartitionId(0));
    c.acquire_compaction_lease(t, p, "worker-A", 60, NOW).unwrap();
    // Same worker can re-acquire (refresh).
    c.acquire_compaction_lease(t, p, "worker-A", 60, NOW).unwrap();
    // Different worker cannot.
    let r = c.acquire_compaction_lease(t, p, "worker-B", 60, NOW);
    assert!(r.is_err());
    // Release.
    c.release_compaction_lease(t, p, "worker-A").unwrap();
    // Now B can take it.
    c.acquire_compaction_lease(t, p, "worker-B", 60, NOW).unwrap();
}

#[test]
fn leases_run_out_and_stay_with_their_holder() {
    let mut c = MockCatalog::new();
    let (t, p) = (TenantId(1), PartitionId(0));
    c.acquire_compaction_lease(t, p, "w1", 60, NOW).unwrap();
    // Releasing another worker's lease leaves it held.
    let _ = c.release_compaction_lease(t, p, "w2");
    match c.acquire_compaction_lease(t, p, "w2", 60, NOW + 59_999_999) {
        Err(ZenError::Catalog(m)) => {
            assert_eq!(
                m,
                "compaction lease for (TenantId(1), PartitionId(0)) is held by w1"
            )
        }
        other => panic!("unexpected {other:?}"),
    }
    c.acquire_compaction_lease(t, p, "w2", 60, NOW + 60_000_001)
        .unwrap();
    // Another partition's lease is free.
    c.acquire_compaction_lease(t, PartitionId(1), "w1", 60, NOW)
        .unwrap();
}

#[test]
fn supersede_is_tenant_scoped() {
    let mut c = MockCatalog::new();
    let id: u128 = 0x1234;
    c.register_segment(segment(id, 1, "k", 1, 2)).unwrap();
    // Tenant 2 tries to supersede tenant 1's segment by guessed UUID.
    let n = c.mark_segments_superseded(TenantId(2), &[id], NOW).unwrap();
    assert_eq!(n, 0, "cross-tenant supersede must not succeed");
    // Tenant 1 succeeds.
    let n = c.mark_segments_superseded(TenantId(1), &[id], NOW).unwrap();
    assert_eq!(n, 1);
}

#[test]
fn superseded_segments_are_gone_from_lists() {
    let mut c = MockCatalog::new();
    for i in 0..3u128 {
        c.register_segment(segment(i, 1, "k", 0, 10)).unwrap();
    }
    assert_eq!(c.list_segments_for_tenant(TenantId(1)).unwrap().len(), 3);
    let n = c.mark_segments_superseded(TenantId(1), &[0, 2, 9], NOW).unwrap();
    assert_eq!(n, 2);
    let left = c.list_segments_for_tenant(TenantId(1)).unwrap();
    assert_eq!(left.len(), 1);
    assert_eq!(left[0].segment_id, 1);
    let in_range = c
        .list_segments_in_range(TenantId(1), PartitionId(0), 0, 10)
        .unwrap();
    assert_eq!(in_range.len(), 1);
    assert!(c.list_segments_for_tenant(TenantId(2)).unwrap().is_empty());
}

#[test]
fn wal_register_list_consume() {
    let mut c = MockCatalog::new();
    c.ensure_tenant(TenantId(1), "t").unwrap();
    c.ensure_partition(TenantId(1), PartitionId(0)).unwrap();

    for i in 1..=5 {
        c.register_wal_object(wal(i, 0)).unwrap();
    }
    let list = c
        .list_wal_objects(TenantId(1), PartitionId(0), CommitId(1))
        .unwrap();
    assert_eq!(list.len(), 5);

    let consumed = c
        .mark_wal_consumed(TenantId(1), PartitionId(0), CommitId(3), NOW)
        .unwrap();
    assert_eq!(consumed, 3);

    let list = c
        .list_wal_objects(TenantId(1), PartitionId(0), CommitId(1))
        .unwrap();
    assert_eq!(list.len(), 2);
}

#[test]
fn wal_objects_are_listed_by_commit() {
    let mut c = MockCatalog::new();
    for i in [4u64, 1, 3] {
        c.register_wal_object(wal(i, 0)).unwrap();
    }
    c.register_wal_object(wal(2, 1)).unwrap();
    let list = c
        .list_wal_objects(TenantId(1), PartitionId(0), CommitId(2))
        .unwrap();
    let ids: Vec<u64> = list.iter().map(|w| w.commit_id_min.0).collect();
    assert_eq!(ids, vec![3, 4]);
    // Consuming one partition leaves the other alone.
    assert_eq!(
        c.mark_wal_consumed(TenantId(1), PartitionId(1), CommitId(9), NOW)
            .unwrap(),
        1
    );
    assert_eq!(
        c.list_wal_objects(TenantId(1), PartitionId(0), CommitId(0))
            .unwrap()
            .len(),
        3
    );
}

#[test]
fn nodes_are_upserted() {
    let mut c = MockCatalog::new();
    let row = |id: u128, endpoint: &str| NodeRow {
        node_id: id,
        endpoint: endpoint.into(),
        role: "all".into(),
        shards: "*".into(),
        last_heartbeat_ms: 5,
    };
    c.upsert_node(row(1, "a")).unwrap();
    c.upsert_node(row(2, "b")).unwrap();
    c.upsert_node(row(1, "c")).unwrap();
    let mut ends: Vec<String> = c
        .list_nodes()
        .unwrap()
        .into_iter()
        .map(|n| n.endpoint)
        .collect();
    ends.sort();
    assert_eq!(ends, vec!["b".to_string(), "c".to_string()]);
}

#[test]
fn fingerprints_and_trace_ids_as_bytes() {
    let fp = SchemaFingerprint(0x0102_0304_0506_0708_090a_0b0c_0d0e_0f10);
    let bytes = fp_to_bytes(fp);
    assert_eq!(bytes.len(), 16);
    assert_eq!(fp_from_bytes(&bytes), fp);
    assert_eq!(trace_from_bytes(&[7u8; 16]).unwrap(), TraceId([7u8; 16]));
    assert!(trace_from_bytes(&[7u8; 15]).is_err());
}

#[test]
fn bounds_cover_the_records() {
    let none = WalObjectBounds::from_span_records(&[]);
    assert_eq!(none.time_min, i64::MIN);
    assert_eq!(none.time_max, i64::MAX);
    assert_eq!(none.trace_id_min, TraceId([0u8; 16]));
    assert_eq!(none.trace_id_max, TraceId([0xff; 16]));
    let rec = |t: i64, id: u8| {
        let mut r = SpanRecord::new(TenantId(1), PartitionId(0));
        r.start_time_ms = t;
        r.trace_id = TraceId([id; 16]);
        r
    };
    let b = WalObjectBounds::from_span_records(&[rec(5, 9), rec(-3, 2), rec(4, 7)]);
    assert_eq!((b.time_min, b.time_max), (-3, 5));
    assert_eq!(b.trace_id_min, TraceId([2u8; 16]));
    assert_eq!(b.trace_id_max, TraceId([9u8; 16]));
}

fn stored(id: Vec<u8>, trace: Vec<u8>) -> StoredSegment {
    StoredSegment {
        segment_id: id,
        tenant_id: -1,
        partition_id: 5,
        object_key: "k".into(),
        level: 2,
        byte_count: 10,
        row_count: 20,
        time_min: 3,
        time_max: 4,
        trace_id_min: trace.clone(),
        trace_id_max: trace,
        commit_id_min: 6,
        commit_id_max: -2,
        schema_fingerprint: fp_to_bytes(SchemaFingerprint(0xabc)),
        rowgroup_index: vec![1, 2],
        superseded_at: None,
        created_at: NOW,
    }
}

#[test]
fn stored_segments_are_read() {
    let mut id = vec![0u8; 16];
    id[15] = 7;
    let row = segment_from_row(stored(id.clone(), vec![9; 16])).unwrap();
    assert_eq!(row.segment_id, 7);
    assert_eq!(row.tenant_id, TenantId(u64::MAX));
    assert_eq!(row.partition_id, PartitionId(5));
    assert_eq!(row.trace_id_max, TraceId([9; 16]));
    assert_eq!(row.commit_id_max, CommitId(u64::MAX - 1));
    assert_eq!(row.schema_fingerprint, SchemaFingerprint(0xabc));
    assert_eq!(row.rowgroup_index, vec![1, 2]);
    match segment_from_row(stored(vec![1, 2, 3], vec![9; 16])) {
        Err(ZenError::Catalog(m)) => assert_eq!(
            m,
            format!(
                "segment_id parse: {}",
                uuid::Uuid::from_slice(&[1, 2, 3]).unwrap_err()
            )
        ),
        _ => panic!(),
    }
    match segment_from_row(stored(id, vec![9; 15])) {
        Err(ZenError::Catalog(m)) => assert_eq!(m, "trace_id length != 16"),
        _ => panic!(),
    }
}

#[test]
fn stored_log_objects_and_nodes_are_read() {
    let object = |id: Vec<u8>| StoredWalObject {
        wal_id: id,
        tenant_id: 1,
        partition_id: 2,
        object_key: "w".into(),
        commit_id_min: 3,
        commit_id_max: 4,
        byte_count: 5,
        row_count: 6,
        schema_fingerprint: vec![0; 16],
        consumed_at: Some(8),
        created_at: 9,
    };
    let row = wal_from_row(object(vec![0xff; 16])).unwrap();
    assert_eq!(row.wal_id, u128::MAX);
    assert_eq!((row.time_min, row.time_max), (i64::MIN, i64::MAX));
    assert_eq!(row.consumed_at, Some(8));
    assert!(wal_from_row(object(vec![])).is_err());
    let node = |id: Vec<u8>| StoredNode {
        node_id: id,
        endpoint: "e".into(),
        role: "all".into(),
        shards: "*".into(),
        last_heartbeat_ms: 1,
    };
    assert_eq!(node_from_row(node(vec![0; 16])).unwrap().node_id, 0);
    match node_from_row(node(vec![0; 17])) {
        Err(ZenError::Catalog(m)) => assert_eq!(m, "nodes.node_id length != 16"),
        _ => panic!(),
    }
}

#[test]
fn leases_are_decided_on() {
    let (t, p) = (TenantId(1), PartitionId(2));
    assert!(lease_decision(&None, t, p, "a", 10).is_ok());
    assert!(lease_decision(&Some(("b".into(), 10)), t, p, "a", 10).is_ok());
    assert!(lease_decision(&Some(("a".into(), 99)), t, p, "a", 10).is_ok());
    match lease_decision(&Some(("b".into(), 11)), t, p, "a", 10) {
        Err(ZenError::Conflict(m)) => assert_eq!(
            m,
            "compaction lease for (TenantId(1),PartitionId(2)) is held"
        ),
        _ => panic!(),
    }
}
