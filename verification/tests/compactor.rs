use std::collections::{BTreeMap, HashMap, HashSet};

use zenithdb::catalog::mock::MockCatalog;
use zenithdb::catalog::model::WalObjectRow;
use zenithdb::common::errors::ZenError;
use zenithdb::common::record::SpanRecord;
use zenithdb::common::schema::Schema;
use zenithdb::common::types::{
    CommitId, PartitionId, SchemaFingerprint, SpanId, TenantId, TraceId,
};
use zenithdb::compactor::assembly::{bitmap_column_places, fts_column_places, GroupIndexes};
use zenithdb::compactor::batch::{arrow_to_records, BatchColumn, Cells, SpanBatch};
use zenithdb::compactor::builder::{build_segment_from_rows, BuildOptions};
use zenithdb::compactor::columns::field_named;
use zenithdb::compactor::decode::decode_row_group_to_records;
use zenithdb::compactor::groups::row_group_ranges;
use zenithdb::compactor::merge::{merge_records, merge_wals, WalObject};
use zenithdb::compactor::runner::{
    new_segment_row, segment_object_key, Action, CompactionStats, Event, FullCompaction,
    PartitionCompaction,
};
use zenithdb::compactor::sources::{KWayMerge, RowList, RowSource, SegmentRowIter, Source};
use zenithdb::compactor::sparse::{keys_from_hotcache, keys_from_rows};
use zenithdb::compactor::streaming::build_segment_from_iter;
use zenithdb::compactor::wal_meta::wal_metadata_from_batch;
use zenithdb::compactor::zones::{build_posting_for_column, build_zone_maps};
use zenithdb::format::page::ColumnValues;
use zenithdb::format::reader::SegmentReader;
use zenithdb::format::zone_map::ZoneMapValue;

const NOW: i64 = 1_700_000_000_000_000;

/// Index blobs that name the group they belong to.
fn blobs(schema: &Schema) -> impl Fn(&[SpanRecord]) -> Result<GroupIndexes, ZenError> {
    let n = bitmap_column_places(schema).len();
    let texts = fts_column_places(schema).len();
    move |rows: &[SpanRecord]| {
        Ok(GroupIndexes {
            postings: (0..n)
                .map(|i| format!("posting {i} of {}", rows.len()).into_bytes())
                .collect(),
            fts: if texts > 0 {
                Some(b"full text".to_vec())
            } else {
                None
            },
            jsonpath: Some(b"paths".to_vec()),
        })
    }
}

fn record(trace: u8, start: i64, span: u8, commit: u64) -> SpanRecord {
    let mut r = SpanRecord::new(TenantId(1), PartitionId(0));
    r.trace_id = TraceId([trace; 16]);
    r.span_id = SpanId([span; 16]);
    r.start_time_ms = start;
    r.end_time_ms = start + 50;
    r.duration_ms = 50;
    r.commit_id = CommitId(commit);
    r
}

/// The columns of a batch that holds these records.
fn batch_of(rows: &[SpanRecord]) -> SpanBatch {
    let col = |name: &str, cells: Cells| BatchColumn {
        name: name.to_string(),
        cells,
    };
    let text = |f: &dyn Fn(&SpanRecord) -> Option<String>| {
        Cells::Text(
            rows.iter()
                .map(|r| match f(r) {
                    Some(t) => (false, t),
                    None => (true, String::new()),
                })
                .collect(),
        )
    };
    let columns = vec![
        col(
            "tenant_id",
            Cells::U64(rows.iter().map(|r| (false, r.tenant_id.0)).collect()),
        ),
        col(
            "partition_id",
            Cells::U32(rows.iter().map(|r| (false, r.partition_id.0)).collect()),
        ),
        col(
            "trace_id",
            Cells::Fixed(rows.iter().map(|r| (false, r.trace_id.0.to_vec())).collect()),
        ),
        col(
            "span_id",
            Cells::Fixed(rows.iter().map(|r| (false, r.span_id.0.to_vec())).collect()),
        ),
        col(
            "start_time_ms",
            Cells::I64(rows.iter().map(|r| (false, r.start_time_ms)).collect()),
        ),
        col(
            "end_time_ms",
            Cells::I64(rows.iter().map(|r| (false, r.end_time_ms)).collect()),
        ),
        col(
            "duration_ms",
            Cells::I64(rows.iter().map(|r| (false, r.duration_ms)).collect()),
        ),
        col("model", text(&|r| r.model.clone())),
        col("status", text(&|r| r.status.clone())),
        col("prompt", text(&|r| r.prompt.clone())),
        col("completion", text(&|r| r.completion.clone())),
        col("metadata_json", text(&|r| {
            r.metadata.as_ref().map(|m| String::from_utf8(m.clone()).unwrap())
        })),
        col(
            "commit_id",
            Cells::U64(rows.iter().map(|r| (false, r.commit_id.0)).collect()),
        ),
    ];
    match SpanBatch::new(rows.len(), columns) {
        Some(b) => b,
        None => panic!("columns of one length"),
    }
}

/// Ten traces of ten spans.
fn hundred_rows() -> Vec<SpanRecord> {
    let mut rows = Vec::new();
    for t in 0..10u32 {
        let mut tid = [0u8; 16];
        tid[0..4].copy_from_slice(&t.to_be_bytes());
        for s in 0..10u32 {
            let mut sid = [0u8; 16];
            sid[0..4].copy_from_slice(&t.to_be_bytes());
            sid[4..8].copy_from_slice(&s.to_be_bytes());
            let mut r = SpanRecord::new(TenantId(1), PartitionId(0));
            r.trace_id = TraceId(tid);
            r.span_id = SpanId(sid);
            r.start_time_ms = (t as i64) * 10_000 + (s as i64) * 100;
            r.end_time_ms = r.start_time_ms + 50;
            r.duration_ms = 50;
            r.model = Some("gpt-4o".into());
            r.status = Some("ok".into());
            r.prompt = Some(format!("prompt for trace {t} span {s}"));
            r.completion = Some(format!("response for span {s}"));
            r.commit_id = CommitId((t * 10 + s + 1) as u64);
            rows.push(r);
        }
    }
    rows
}

/// Runs the compaction of a partition over a catalog and stores in memory.
fn compact_partition(
    catalog: &mut MockCatalog,
    wals: &BTreeMap<String, Vec<SpanRecord>>,
    store: &mut BTreeMap<String, Vec<u8>>,
    schema: &Schema,
) -> Result<CompactionStats, ZenError> {
    let (t, p) = (TenantId(1), PartitionId(0));
    let mut machine = PartitionCompaction::new();
    let mut merged: Vec<SpanRecord> = Vec::new();
    let mut segment: Option<(Vec<u8>, zenithdb::format::meta::SegmentMetadata)> = None;
    let mut ev = Event::Done;
    loop {
        ev = match machine.step(ev) {
            Action::AcquireLease { ttl_seconds } => {
                match catalog.acquire_compaction_lease(t, p, "test-worker", ttl_seconds, NOW) {
                    Ok(()) => Event::Done,
                    Err(e) => Event::Failed(e),
                }
            }
            Action::ListWals { since } => {
                Event::Wals(catalog.list_wal_objects(t, p, since).unwrap())
            }
            Action::ListSegments { time_min, time_max } => Event::Segments(
                catalog
                    .list_segments_in_range(t, p, time_min, time_max)
                    .unwrap(),
            ),
            Action::ReadInputs { wal_keys, .. } => {
                let objects: Vec<WalObject> = wal_keys
                    .iter()
                    .map(|k| WalObject {
                        commit_id: CommitId(1),
                        batches: vec![batch_of(&wals[k])],
                    })
                    .collect();
                merged = merge_wals(&objects).rows;
                Event::Merged { rows: merged.len() }
            }
            Action::BuildSegment => {
                let built = build_segment_from_rows(
                    &merged,
                    t,
                    p,
                    schema,
                    &BuildOptions::default(),
                    &blobs(schema),
                )
                .unwrap();
                let ev = Event::Built {
                    bytes: built.0.len(),
                    rows: merged.len(),
                };
                segment = Some(built);
                ev
            }
            Action::Upload => {
                let (bytes, meta) = segment.as_ref().unwrap();
                store.insert(segment_object_key(t, p, meta.segment_id), bytes.clone());
                Event::Done
            }
            Action::Register { level } => {
                let (bytes, meta) = segment.as_ref().unwrap();
                let row = new_segment_row(
                    meta,
                    t,
                    p,
                    level,
                    bytes.len(),
                    merged.len(),
                    vec![],
                    NOW,
                );
                catalog.register_segment(row).unwrap();
                Event::Done
            }
            Action::Supersede { segment_ids } => {
                catalog
                    .mark_segments_superseded(t, &segment_ids, NOW)
                    .unwrap();
                Event::Done
            }
            Action::MarkConsumed { through } => {
                catalog.mark_wal_consumed(t, p, through, NOW).unwrap();
                Event::Done
            }
            Action::Release => {
                catalog
                    .release_compaction_lease(t, p, "test-worker")
                    .unwrap();
                Event::Released { elapsed_ms: 7 }
            }
            Action::Finish(r) => return r,
        }
    }
}

fn wal_row(key: &str, commits: (u64, u64), rows: usize) -> WalObjectRow {
    WalObjectRow {
        wal_id: commits.0 as u128,
        tenant_id: TenantId(1),
        partition_id: PartitionId(0),
        object_key: key.into(),
        commit_id_min: CommitId(commits.0),
        commit_id_max: CommitId(commits.1),
        byte_count: 0,
        row_count: rows as i64,
        time_min: 0,
        time_max: 0,
        trace_id_min: TraceId([0u8; 16]),
        trace_id_max: TraceId([0xff; 16]),
        schema_fingerprint: SchemaFingerprint(0),
        consumed_at: None,
        created_at: NOW,
    }
}

#[test]
fn end_to_end_compaction_trace_locality() {
    let mut catalog = MockCatalog::new();
    let mut store: BTreeMap<String, Vec<u8>> = BTreeMap::new();
    let mut wals: BTreeMap<String, Vec<SpanRecord>> = BTreeMap::new();
    catalog.ensure_tenant(TenantId(1), "t").unwrap();
    catalog
        .ensure_partition(TenantId(1), PartitionId(0))
        .unwrap();

    let rows = hundred_rows();
    for (i, chunk) in rows.chunks(20).enumerate() {
        let key = format!("wal/{i}");
        wals.insert(key.clone(), chunk.to_vec());
        catalog
            .register_wal_object(wal_row(&key, (i as u64 + 1, i as u64 + 1), chunk.len()))
            .unwrap();
    }

    let schema = Schema::spans_v1();
    let stats = compact_partition(&mut catalog, &wals, &mut store, &schema).unwrap();
    assert_eq!(stats.rows_compacted, 100);
    assert!(stats.segment_bytes > 0);
    assert_eq!(stats.wal_objects_consumed, 5);
    assert_eq!(stats.elapsed_ms, 7);

    // Verify trace-locality: every trace's spans are in one row group.
    let segs = catalog.list_segments_for_tenant(TenantId(1)).unwrap();
    assert_eq!(segs.len(), 1);
    let seg_bytes = store[&segs[0].object_key].clone();
    let reader = SegmentReader::from_bytes(seg_bytes).unwrap();

    // Decode trace_id column from each row group; verify each trace appears in exactly 1 RG.
    let mut trace_to_rgs: HashMap<[u8; 16], HashSet<usize>> = HashMap::new();
    for rg_idx in 0..reader.row_group_count() {
        let cv = reader.read_column(rg_idx, 2).unwrap(); // trace_id is column 2 in spans_v1
        if let ColumnValues::Fixed16(v) = cv {
            for tid in v {
                trace_to_rgs.entry(tid).or_default().insert(rg_idx);
            }
        }
    }
    assert_eq!(trace_to_rgs.len(), 10);
    for (tid, rgs) in &trace_to_rgs {
        assert_eq!(
            rgs.len(),
            1,
            "trace {tid:?} appears in multiple row groups: {rgs:?}"
        );
    }
    // The log is consumed, and compacting again finds nothing.
    assert!(catalog
        .list_wal_objects(TenantId(1), PartitionId(0), CommitId(0))
        .unwrap()
        .is_empty());
    let again = compact_partition(&mut catalog, &wals, &mut store, &schema).unwrap();
    assert_eq!(again.rows_compacted, 0);
}

#[test]
fn empty_compaction_idempotent() {
    let mut catalog = MockCatalog::new();
    catalog.ensure_tenant(TenantId(1), "t").unwrap();
    catalog
        .ensure_partition(TenantId(1), PartitionId(0))
        .unwrap();
    let schema = Schema::spans_v1();
    let stats =
        compact_partition(&mut catalog, &BTreeMap::new(), &mut BTreeMap::new(), &schema).unwrap();
    assert_eq!(stats.rows_compacted, 0);
}

#[test]
fn compaction_stops_where_a_step_fails() {
    let mut m = PartitionCompaction::new();
    assert!(matches!(
        m.step(Event::Done),
        Action::AcquireLease { ttl_seconds: 60 }
    ));
    match m.step(Event::Failed(ZenError::conflict("held"))) {
        Action::Finish(Err(ZenError::Conflict(t))) => assert_eq!(t, "held"),
        _ => panic!("expected the error"),
    }
}

#[test]
fn full_compaction_supersedes_its_inputs() {
    let mut m = FullCompaction::new();
    assert!(matches!(m.step(Event::Done), Action::AcquireLease { .. }));
    assert!(matches!(
        m.step(Event::Done),
        Action::ListSegments {
            time_min: i64::MIN,
            time_max: i64::MAX
        }
    ));
    let meta = zenithdb::format::meta::SegmentMetadata::new(
        9,
        TenantId(1),
        PartitionId(0),
        SchemaFingerprint(0),
        vec![],
        vec![],
    );
    let seg = new_segment_row(&meta, TenantId(1), PartitionId(0), 1, 10, 2, vec![], NOW);
    let key = seg.object_key.clone();
    assert!(matches!(
        m.step(Event::Segments(vec![seg])),
        Action::ListWals {
            since: CommitId(0)
        }
    ));
    match m.step(Event::Wals(vec![wal_row("w", (4, 6), 3)])) {
        Action::ReadInputs {
            segment_keys,
            wal_keys,
        } => {
            assert_eq!(segment_keys, vec![key]);
            assert_eq!(wal_keys, vec!["w".to_string()]);
        }
        _ => panic!("expected to read the inputs"),
    }
    assert!(matches!(
        m.step(Event::Merged { rows: 3 }),
        Action::BuildSegment
    ));
    assert!(matches!(
        m.step(Event::Built { bytes: 77, rows: 5 }),
        Action::Upload
    ));
    assert!(matches!(m.step(Event::Done), Action::Register { .. }));
    match m.step(Event::Done) {
        Action::Supersede { segment_ids } => assert_eq!(segment_ids, vec![9]),
        _ => panic!("expected to supersede"),
    }
    assert!(matches!(
        m.step(Event::Done),
        Action::MarkConsumed {
            through: CommitId(6)
        }
    ));
    assert!(matches!(m.step(Event::Done), Action::Release));
    match m.step(Event::Released { elapsed_ms: 11 }) {
        Action::Finish(Ok(s)) => {
            assert_eq!(s.rows_compacted, 5);
            assert_eq!(s.segment_bytes, 77);
            assert_eq!(s.elapsed_ms, 11);
        }
        _ => panic!("expected success"),
    }
}

#[test]
fn object_keys_have_their_form() {
    assert_eq!(
        segment_object_key(TenantId(1), PartitionId(2), 0),
        "segments/t0000000000000001/p00000002/00000000000000000000000000.zseg"
    );
}

#[test]
fn batches_become_records() {
    let mut rows = hundred_rows();
    rows[3].metadata = Some(b"{ \"b\": 1, \"a\": [2] }".to_vec());
    rows[4].model = None;
    let batch = batch_of(&rows);
    assert_eq!(batch.num_rows(), 100);
    assert!(batch.ids_fit());
    let mut out = Vec::new();
    arrow_to_records(&batch, &mut out);
    assert_eq!(out.len(), 100);
    for (a, b) in out.iter().zip(rows.iter()) {
        assert_eq!(a.trace_id, b.trace_id);
        assert_eq!(a.span_id, b.span_id);
        assert_eq!(a.start_time_ms, b.start_time_ms);
        assert_eq!(a.model, b.model);
        assert_eq!(a.prompt, b.prompt);
        assert_eq!(a.commit_id, b.commit_id);
    }
    // The metadata is kept as compact JSON.
    let value: serde_json::Value = serde_json::from_slice(b"{ \"b\": 1, \"a\": [2] }").unwrap();
    assert_eq!(
        out[3].metadata,
        Some(serde_json::to_vec(&value).unwrap())
    );
    // Columns of different lengths are no batch.
    assert!(SpanBatch::new(
        2,
        vec![BatchColumn {
            name: "x".into(),
            cells: Cells::I64(vec![(false, 1)])
        }]
    )
    .is_none());
}

#[test]
fn batch_metadata_bounds_its_rows() {
    let rows = vec![record(5, 30, 1, 7), record(2, -4, 2, 9), record(3, 12, 3, 8)];
    let m = wal_metadata_from_batch(&batch_of(&rows)).unwrap();
    assert_eq!((m.commit_id_min, m.commit_id_max), (CommitId(7), CommitId(9)));
    assert_eq!((m.time_min, m.time_max), (-4, 30));
    assert_eq!(m.trace_id_min, TraceId([2; 16]));
    assert_eq!(m.trace_id_max, TraceId([5; 16]));
    assert!(wal_metadata_from_batch(&batch_of(&[])).is_none());
}

#[test]
fn merging_keeps_the_latest_version_of_a_span() {
    let mut old = record(1, 10, 1, 3);
    old.model = Some("old".into());
    let mut new = record(1, 10, 1, 5);
    new.model = Some("new".into());
    let out = merge_records(vec![old, record(2, 0, 9, 1), new, record(1, 5, 2, 2)]);
    assert_eq!(out.len(), 3);
    assert_eq!(out[0].span_id, SpanId([2; 16]));
    assert_eq!(out[1].model.as_deref(), Some("new"));
    assert_eq!(out[2].trace_id, TraceId([2; 16]));

    let merged = merge_wals(&vec![
        WalObject {
            commit_id: CommitId(4),
            batches: vec![batch_of(&[record(1, 1, 1, 4)])],
        },
        WalObject {
            commit_id: CommitId(2),
            batches: vec![batch_of(&[record(1, 1, 1, 2), record(1, 0, 3, 3)])],
        },
    ]);
    assert_eq!(merged.commit_id_max, CommitId(4));
    assert_eq!(merged.rows.len(), 2);
    assert_eq!(merged.rows[0].span_id, SpanId([3; 16]));
    assert_eq!(merged.rows[1].commit_id, CommitId(4));
}

#[test]
fn row_groups_do_not_split_traces() {
    let mut rows = Vec::new();
    for t in 0..4u8 {
        for s in 0..5u8 {
            rows.push(record(t, s as i64, t * 16 + s, 1));
        }
    }
    let ranges = row_group_ranges(&rows, 6);
    assert_eq!(ranges.first().unwrap().0, 0);
    assert_eq!(ranges.last().unwrap().1, 20);
    for w in ranges.windows(2) {
        assert_eq!(w[0].1, w[1].0);
        assert_ne!(rows[w[0].1 - 1].trace_id, rows[w[0].1].trace_id);
    }
}

#[test]
fn built_segment_reads_back() {
    let schema = Schema::spans_v1();
    let mut rows = hundred_rows();
    rows[0].metadata = Some(b"{\"a\":1}".to_vec());
    rows[1].cost_usd = Some(1.25f64.to_bits());
    rows[2].parent_span_id = Some(rows[1].span_id);
    rows[3].prompt_tokens = Some(17);
    let opts = BuildOptions {
        row_group_max_rows: 25,
        row_group_max_bytes: 1 << 20,
    };
    let (bytes, meta) = build_segment_from_rows(
        &rows,
        TenantId(1),
        PartitionId(0),
        &schema,
        &opts,
        &blobs(&schema),
    )
    .unwrap();
    assert_eq!(meta.time_min_ms, 0);
    assert_eq!(meta.time_max_ms, 90_900);
    assert_eq!(meta.commit_id_min, CommitId(1));
    assert_eq!(meta.commit_id_max, CommitId(100));
    let reader = SegmentReader::from_bytes(bytes.clone()).unwrap();
    assert_eq!(reader.metadata.row_count, 100);
    assert!(reader.row_group_count() > 1);
    let mut back = Vec::new();
    for g in 0..reader.row_group_count() {
        let n = reader.row_groups[g].row_count as usize;
        decode_row_group_to_records(&reader, g, n, &mut back).unwrap();
    }
    assert_eq!(back.len(), rows.len());
    for (a, b) in back.iter().zip(rows.iter()) {
        assert_eq!(a.trace_id, b.trace_id);
        assert_eq!(a.span_id, b.span_id);
        assert_eq!(a.start_time_ms, b.start_time_ms);
        assert_eq!(a.prompt, b.prompt);
        assert_eq!(a.completion, b.completion);
        assert_eq!(a.model, b.model);
        assert_eq!(a.commit_id, b.commit_id);
    }
    assert_eq!(back[0].metadata, rows[0].metadata);
    assert_eq!(back[2].parent_span_id, rows[2].parent_span_id);
    // The index blobs stand where the hotcache says.
    let places = bitmap_column_places(&schema);
    for (g, entry) in reader.hotcache.row_groups.iter().enumerate() {
        let n = reader.row_groups[g].row_count;
        let col = &entry.columns[places[0]];
        let at = col.posting_offset.unwrap() as usize;
        let len = col.posting_length.unwrap() as usize;
        assert_eq!(
            &bytes[at..at + len],
            format!("posting 0 of {n}").as_bytes()
        );
        let text = &entry.columns[fts_column_places(&schema)[0]];
        let at = text.fts_offset.unwrap() as usize;
        let len = text.fts_length.unwrap() as usize;
        assert_eq!(&bytes[at..at + len], b"full text");
    }
    // Keys of the row groups bound their rows.
    let keys = keys_from_rows(&rows, &reader);
    assert_eq!(keys.len(), reader.row_group_count());
    assert_eq!(keys[0].min_start_time, 0);
    let cached = keys_from_hotcache(&reader);
    assert_eq!(cached.len(), keys.len());
    assert_eq!(cached[0].min_trace_id, keys[0].min_trace_id);
    assert_eq!(cached[0].max_trace_id, keys[0].max_trace_id);
    // Rows come back one by one, too.
    let mut iter = SegmentRowIter::new(reader);
    let mut n = 0;
    while let Some(r) = iter.next() {
        assert_eq!(r.span_id, rows[n].span_id);
        n += 1;
    }
    assert_eq!(n, 100);
}

#[test]
fn building_needs_rows() {
    let schema = Schema::spans_v1();
    let r = build_segment_from_rows(
        &[],
        TenantId(1),
        PartitionId(0),
        &schema,
        &BuildOptions::default(),
        &blobs(&schema),
    );
    match r {
        Err(ZenError::Invalid(m)) => assert_eq!(m, "build_segment with no rows"),
        _ => panic!("expected an error"),
    }
    let opts = BuildOptions::default();
    assert_eq!(opts.row_group_max_rows, 16_384);
    assert_eq!(opts.row_group_max_bytes, 64 * 1024 * 1024);
    let failing = |_: &[SpanRecord]| -> Result<GroupIndexes, ZenError> {
        Err(ZenError::compactor("fts build: full"))
    };
    let r = build_segment_from_rows(
        &hundred_rows(),
        TenantId(1),
        PartitionId(0),
        &schema,
        &BuildOptions::default(),
        &failing,
    );
    assert!(matches!(r, Err(ZenError::Compactor(_))));
}

#[test]
fn streams_are_merged_and_deduplicated() {
    let schema = Schema::spans_v1();
    let a = RowList::new(vec![record(1, 0, 1, 9), record(3, 0, 3, 1)]);
    let b = RowList::new(vec![record(1, 0, 1, 4), record(2, 0, 2, 2)]);
    let merge = KWayMerge::new(vec![Source::Rows(a), Source::Rows(b)]);
    let (bytes, meta, n) = build_segment_from_iter(
        merge,
        TenantId(1),
        PartitionId(0),
        &schema,
        &BuildOptions::default(),
        &blobs(&schema),
    )
    .unwrap()
    .unwrap();
    assert_eq!(n, 3);
    let reader = SegmentReader::from_bytes(bytes).unwrap();
    assert_eq!(reader.metadata.row_count, 3);
    assert_eq!(reader.metadata.commit_id_max, meta.commit_id_max);
    let mut iter = SegmentRowIter::new(reader);
    let first = iter.next().unwrap();
    assert_eq!(first.span_id, SpanId([1; 16]));
    assert_eq!(first.commit_id, CommitId(9));
    assert_eq!(iter.next().unwrap().span_id, SpanId([2; 16]));
    assert_eq!(iter.next().unwrap().span_id, SpanId([3; 16]));
    assert!(iter.next().is_none());

    let none = build_segment_from_iter(
        RowList::new(vec![]),
        TenantId(1),
        PartitionId(0),
        &schema,
        &BuildOptions::default(),
        &blobs(&schema),
    )
    .unwrap();
    assert!(none.is_none());
}

#[test]
fn zone_maps_and_postings_of_rows() {
    let schema = Schema::spans_v1();
    let mut rows = vec![record(4, 7, 1, 1), record(4, 9, 2, 2), record(6, 3, 3, 3)];
    rows[0].model = Some("m1".into());
    rows[1].model = Some("m2".into());
    rows[2].model = Some("m1".into());
    let zones = build_zone_maps(&rows, &schema);
    let time = schema.index_of("start_time_ms").unwrap();
    assert_eq!(
        zones[time].zone_map.value,
        ZoneMapValue::I64 { min: 3, max: 9 }
    );
    let posting = build_posting_for_column(&rows, "model");
    let find = |v: &[u8]| {
        posting
            .entries
            .iter()
            .find(|e| e.0 == v)
            .map(|e| e.1.clone())
    };
    assert_eq!(find(b"m1"), Some(vec![0, 2]));
    assert_eq!(find(b"m2"), Some(vec![1]));
    assert_eq!(find(b"m3"), None);
}

#[test]
fn jsonpath_blobs_stand_where_the_hotcache_says() {
    let schema = Schema::spans_v1();
    let (bytes, _) = build_segment_from_rows(
        &hundred_rows(),
        TenantId(1),
        PartitionId(0),
        &schema,
        &BuildOptions::default(),
        &blobs(&schema),
    )
    .unwrap();
    let reader = SegmentReader::from_bytes(bytes.clone()).unwrap();
    let place = schema.index_of("metadata").unwrap();
    let entry = &reader.hotcache.row_groups[0].columns[place];
    let at = entry.jsonpath_offset.unwrap() as usize;
    let len = entry.jsonpath_length.unwrap() as usize;
    assert_eq!(&bytes[at..at + len], b"paths");
}

#[test]
fn row_groups_hold_at_most_the_allowed_rows() {
    let rows: Vec<SpanRecord> = (0..20).map(|i| record(1, i, i as u8, 1)).collect();
    // One trace that is larger than a group is split.
    let ranges = row_group_ranges(&rows, 6);
    assert_eq!(ranges.last().unwrap().1, 20);
    for (a, b) in ranges {
        assert!(a < b && b - a <= 6);
    }
}

#[test]
fn a_stream_keeps_the_latest_of_adjacent_versions_only() {
    let schema = Schema::spans_v1();
    let rows = vec![
        record(1, 0, 1, 3),
        record(1, 0, 1, 7),
        record(1, 0, 1, 5),
        record(2, 0, 2, 1),
    ];
    let (bytes, _, n) = build_segment_from_iter(
        RowList::new(rows),
        TenantId(1),
        PartitionId(0),
        &schema,
        &BuildOptions::default(),
        &blobs(&schema),
    )
    .unwrap()
    .unwrap();
    assert_eq!(n, 2);
    let mut iter = SegmentRowIter::new(SegmentReader::from_bytes(bytes).unwrap());
    assert_eq!(iter.next().unwrap().commit_id, CommitId(7));
    assert_eq!(iter.next().unwrap().commit_id, CommitId(1));
    assert!(iter.next().is_none());
}

#[test]
fn a_stream_keeps_one_version_across_row_groups() {
    let schema = Schema::spans_v1();
    let rows = || {
        vec![
            record(1, 0, 1, 3),
            record(2, 0, 2, 4),
            record(2, 0, 2, 9),
            record(2, 0, 2, 6),
            record(3, 0, 3, 1),
            record(4, 0, 4, 2),
            record(4, 0, 4, 1),
            record(5, 0, 5, 8),
        ]
    };
    for (max, groups) in [(0, 5), (1, 5), (2, 3), (3, 2), (5, 1), (100, 1)] {
        let opts = BuildOptions {
            row_group_max_rows: max,
            ..BuildOptions::default()
        };
        let (bytes, meta, n) = build_segment_from_iter(
            RowList::new(rows()),
            TenantId(1),
            PartitionId(0),
            &schema,
            &opts,
            &blobs(&schema),
        )
        .unwrap()
        .unwrap();
        assert_eq!(n, 5);
        assert_eq!(meta.commit_id_max, CommitId(9));
        let reader = SegmentReader::from_bytes(bytes).unwrap();
        assert_eq!(reader.hotcache.row_groups.len(), groups);
        let mut iter = SegmentRowIter::new(reader);
        for (span, commit) in [(1, 3), (2, 9), (3, 1), (4, 2), (5, 8)] {
            let row = iter.next().unwrap();
            assert_eq!(row.span_id, SpanId([span; 16]));
            assert_eq!(row.commit_id, CommitId(commit));
        }
        assert!(iter.next().is_none());
    }
}

#[test]
fn fields_are_found_by_their_names() {
    let schema = Schema::spans_v1();
    let mut seen = HashSet::new();
    for c in &schema.columns {
        if let Some(f) = field_named(&c.name) {
            assert_eq!(f.name(), c.name);
            assert!(seen.insert(f.name()));
        }
    }
    assert!(seen.len() > 10);
    assert!(field_named("no such field").is_none());
}
