use zenithdb::cli::flush::{flush_plan, flushed_wal_row, FlushPlan};
use zenithdb::cli::restore::{
    backup_file_name, has_tenant_prefix, is_object_key_safe, restored_segment_row, BackupEntry,
};
use zenithdb::common::schema::Schema;
use zenithdb::common::types::{CommitId, PartitionId, TenantId, TraceId};
use zenithdb::compactor::batch::{BatchColumn, Cells, SpanBatch};

#[test]
fn object_keys_cannot_leave_the_store() {
    assert!(is_object_key_safe("tenants/1/a.zseg"));
    assert!(is_object_key_safe("a.b"));
    assert!(!is_object_key_safe(""));
    assert!(!is_object_key_safe("../etc/passwd"));
    assert!(!is_object_key_safe("a/../b"));
    assert!(!is_object_key_safe("a.."));
    assert!(!is_object_key_safe("/etc/passwd"));
    assert!(!is_object_key_safe("a\0b"));
}

#[test]
fn tenant_prefixes() {
    assert!(has_tenant_prefix("tenants/12/x", 12));
    assert!(has_tenant_prefix("seg/12/x", 12));
    assert!(!has_tenant_prefix("seg/123/x", 12));
    assert!(!has_tenant_prefix("x", 12));
}

fn entry(key: &str) -> BackupEntry {
    BackupEntry {
        segment_id: 0x1234,
        object_key: key.into(),
        level: Some(65_537),
        byte_count: Some(10),
        row_count: None,
        time_min: Some(-5),
        time_max: Some(6),
        commit_id_min: None,
        commit_id_max: Some(9),
    }
}

#[test]
fn restored_rows_come_from_their_entries() {
    let r = restored_segment_row(&entry("seg/1/x"), TenantId(1), 99).unwrap();
    assert_eq!(r.segment_id, 0x1234);
    assert_eq!(r.tenant_id, TenantId(1));
    assert_eq!(r.partition_id, PartitionId(0));
    assert_eq!(r.level, 1);
    assert_eq!((r.byte_count, r.row_count), (10, 0));
    assert_eq!((r.time_min, r.time_max), (-5, 6));
    assert_eq!((r.commit_id_min, r.commit_id_max), (CommitId(0), CommitId(9)));
    assert_eq!(r.trace_id_min, TraceId([0; 16]));
    assert_eq!(r.trace_id_max, TraceId([0xff; 16]));
    assert_eq!(r.created_at, 99);
    assert!(restored_segment_row(&entry("../x"), TenantId(1), 99).is_none());
    assert_eq!(
        backup_file_name(1),
        "00000000-0000-0000-0000-000000000001.zseg"
    );
}

fn batch(commits: Vec<(bool, u64)>) -> SpanBatch {
    let n = commits.len();
    let col = BatchColumn {
        name: "commit_id".into(),
        cells: Cells::U64(commits),
    };
    match SpanBatch::new(n, vec![col]) {
        Some(b) => b,
        None => panic!("one column"),
    }
}

#[test]
fn memory_tables_are_flushed_where_they_hold_rows() {
    assert!(matches!(flush_plan(&batch(vec![])), FlushPlan::Skip));
    assert!(matches!(
        flush_plan(&batch(vec![(true, 5)])),
        FlushPlan::NoMetadata
    ));
    match flush_plan(&batch(vec![(false, 5), (true, 0), (false, 3)])) {
        FlushPlan::Write(m) => {
            assert_eq!((m.commit_id_min, m.commit_id_max), (CommitId(3), CommitId(5)));
            assert_eq!((m.time_min, m.time_max), (i64::MIN, i64::MAX));
            let row = flushed_wal_row(
                TenantId(4),
                PartitionId(2),
                "wal/k".to_string(),
                &m,
                1000,
                3,
                55,
            );
            assert_eq!(uuid::Uuid::from_u128(row.wal_id).get_version_num(), 4);
            assert_eq!(row.object_key, "wal/k");
            assert_eq!((row.byte_count, row.row_count), (1000, 3));
            assert_eq!(row.commit_id_min, CommitId(3));
            assert_eq!(row.trace_id_min, TraceId([0; 16]));
            assert_eq!(row.schema_fingerprint, Schema::spans_v1().fingerprint());
            assert_eq!(row.created_at, 55);
            assert!(row.consumed_at.is_none());
        }
        _ => panic!("expected to write"),
    }
}
