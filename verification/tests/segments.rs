use zenithdb::common::types::{
    CommitId, PartitionId, SchemaFingerprint, SpanId, TenantId, TraceId,
};
use zenithdb::cursor::Cursor;
use zenithdb::format::footer::Footer;
use zenithdb::format::hotcache::{ColumnHotcacheEntry, Hotcache, RowGroupHotcacheEntry};
use zenithdb::format::meta::SegmentMetadata;
use zenithdb::format::page::{encode_page, ColumnValues, PageEncoding};
use zenithdb::format::page_view::RowValue;
use zenithdb::format::reader::SegmentReader;
use zenithdb::format::row_group::{ColumnPageDescriptor, RowGroupBuilder, RowGroupHeader};
use zenithdb::format::writer::SegmentWriter;
use zenithdb::format::zone_map::{ZoneMap, ZoneMapValue};
use zenithdb::order::sort_order;

fn build_simple_segment() -> Vec<u8> {
    let fp = SchemaFingerprint(0x1234);
    let mut meta = SegmentMetadata::new(
        1,
        TenantId(7),
        PartitionId(0),
        fp,
        vec!["trace_id".into(), "start_time_ms".into(), "model".into(), "prompt".into()],
        vec!["trace_id".into(), "start_time_ms".into()],
    );
    meta.observe_time(1000);
    meta.observe_time(2000);
    meta.observe_commit(CommitId(1));
    meta.observe_commit(CommitId(99));
    meta.observe_trace_id(TraceId([0x10; 16]));
    meta.observe_trace_id(TraceId([0x20; 16]));
    meta.observe_span_id(SpanId([0x00; 16]));
    meta.observe_span_id(SpanId([0xFF; 16]));

    let mut writer = SegmentWriter::new(meta);

    let mut rgb = RowGroupBuilder::new(3);
    // Column 0: trace_ids (Fixed16)
    let trace_ids: Vec<[u8; 16]> = vec![[0x10; 16], [0x15; 16], [0x20; 16]];
    let (e, b) =
        encode_page(ColumnValues::Fixed16(trace_ids), PageEncoding::FixedRaw).unwrap();
    rgb.add_page(0, e, b, 48);
    // Column 1: start_time_ms (For)
    let times: Vec<i64> = vec![1000, 1500, 2000];
    let (e, b) = encode_page(ColumnValues::I64(times), PageEncoding::For).unwrap();
    rgb.add_page(1, e, b, 24);
    // Column 2: model (Dict)
    let models: Vec<Vec<u8>> = vec![b"gpt-4o".to_vec(), b"haiku".to_vec(), b"gpt-4o".to_vec()];
    let (e, b) =
        encode_page(ColumnValues::StringsOwned(models), PageEncoding::Dict).unwrap();
    rgb.add_page(2, e, b, 30);
    // Column 3: prompt (FsstWithOffsets)
    let prompts: Vec<Vec<u8>> = vec![
        b"the quick brown fox".to_vec(),
        b"out of memory at allocator".to_vec(),
        b"summarize the previous conversation".to_vec(),
    ];
    let (e, b) = encode_page(
        ColumnValues::StringsOwned(prompts),
        PageEncoding::FsstWithOffsets,
    )
    .unwrap();
    rgb.add_page(3, e, b, 200);

    let (payload, header) = rgb.finish();
    writer.add_row_group(header, payload);
    writer.finish().unwrap()
}

#[test]
fn write_then_read_segment() {
    let bytes = build_simple_segment();
    let r = SegmentReader::from_bytes(bytes).unwrap();
    assert_eq!(r.row_group_count(), 1);
    assert_eq!(r.metadata.tenant_id.0, 7);
    assert_eq!(r.metadata.row_count, 3);
    assert_eq!(r.row_groups[0].row_count, 3);
}

#[test]
fn read_column_full_page() {
    let bytes = build_simple_segment();
    let r = SegmentReader::from_bytes(bytes).unwrap();

    let trace_ids = r.read_column(0, 0).unwrap();
    match trace_ids {
        ColumnValues::Fixed16(v) => {
            assert_eq!(v.len(), 3);
            assert_eq!(v[0], [0x10; 16]);
            assert_eq!(v[2], [0x20; 16]);
        }
        _ => panic!(),
    }

    let times = r.read_column(0, 1).unwrap();
    match times {
        ColumnValues::I64(v) => assert_eq!(v, vec![1000, 1500, 2000]),
        _ => panic!(),
    }

    let prompts = r.read_column(0, 3).unwrap();
    match prompts {
        ColumnValues::StringsOwned(v) => {
            assert_eq!(v[0], b"the quick brown fox");
            assert_eq!(v[2], b"summarize the previous conversation");
        }
        _ => panic!(),
    }
}

#[test]
fn late_materialize_one_row() {
    // The big win: decode prompt at row 1 alone.
    let bytes = build_simple_segment();
    let r = SegmentReader::from_bytes(bytes).unwrap();

    let row = r.read_row(0, 3, 1).unwrap();
    match row {
        RowValue::Bytes(b) => assert_eq!(b, b"out of memory at allocator"),
        _ => panic!(),
    }
    let row = r.read_row(0, 1, 2).unwrap();
    match row {
        RowValue::I64(t) => assert_eq!(t, 2000),
        _ => panic!(),
    }
}

#[test]
fn rejects_corrupted_magic() {
    let mut bytes = build_simple_segment();
    bytes[0] = 0;
    assert!(SegmentReader::from_bytes(bytes).is_err());
}

#[test]
fn round_trip_byte_identity() {
    // Two writes of the same logical content should produce identical bytes.
    // (Hashmap iteration in PostingMap could perturb this; segments don't hold
    // posting lists in this minimal test, so it's deterministic.)
    let a = build_simple_segment();
    let b = build_simple_segment();
    assert_eq!(a, b);
}

#[test]
fn build_finish_offsets_relative() {
    let mut b = RowGroupBuilder::new(100);
    b.add_page(0, PageEncoding::For, vec![0u8; 32], 800);
    b.add_page(1, PageEncoding::Dict, vec![0u8; 64], 1600);
    b.add_page(2, PageEncoding::FsstWithOffsets, vec![0u8; 128], 4096);

    let (payload, header) = b.finish();
    assert_eq!(payload.len(), 32 + 64 + 128);
    assert_eq!(header.row_count, 100);
    assert_eq!(header.columns[0].page_offset, 0);
    assert_eq!(header.columns[1].page_offset, 32);
    assert_eq!(header.columns[2].page_offset, 32 + 64);
}

#[test]
fn descriptor_lookup() {
    let mut b = RowGroupBuilder::new(10);
    b.add_page(7, PageEncoding::For, vec![0u8; 8], 80);
    let (_, header) = b.finish();
    assert!(header.descriptor_for_column(7).is_some());
    assert!(header.descriptor_for_column(8).is_none());
}

/// Build a vanilla `SegmentMetadata` for tests; no observations recorded.
fn make_meta() -> SegmentMetadata {
    SegmentMetadata::new(
        1,
        TenantId(1),
        PartitionId(0),
        SchemaFingerprint(0xABCD),
        vec!["start_time_ms".into(), "model".into()],
        vec!["start_time_ms".into()],
    )
}

/// Build one trivial row group: column 0 is i64, column 1 is dict-encoded strings.
fn make_row_group(rows: &[(i64, &[u8])]) -> (RowGroupHeader, Vec<u8>) {
    let mut rgb = RowGroupBuilder::new(rows.len() as u32);
    let times: Vec<i64> = rows.iter().map(|(t, _)| *t).collect();
    let (e, b) = encode_page(ColumnValues::I64(times), PageEncoding::For).expect("For encode");
    rgb.add_page(0, e, b, 8 * rows.len() as u64);
    let models: Vec<Vec<u8>> = rows.iter().map(|(_, m)| m.to_vec()).collect();
    let (e, b) = encode_page(ColumnValues::StringsOwned(models), PageEncoding::Dict)
        .expect("Dict encode");
    rgb.add_page(1, e, b, 32);
    let (payload, header) = rgb.finish();
    (header, payload)
}

/// `SegmentWriter::new` + `add_row_group` + `finish` produces bytes the reader
/// opens with the expected row count.
#[test]
fn writer_finish_opens_in_reader() {
    let mut writer = SegmentWriter::new(make_meta());
    let (header, payload) = make_row_group(&[(1000, b"gpt-4o"), (2000, b"haiku")]);
    writer.add_row_group(header, payload);
    let bytes = writer.finish().expect("finish");
    let r = SegmentReader::from_bytes(bytes).expect("reader open");
    assert_eq!(r.row_group_count(), 1);
    assert_eq!(r.metadata.row_count, 2);
}

/// An empty writer (no row groups) finishes successfully and the reader sees zero RGs.
#[test]
fn writer_empty_segment_finishes() {
    let writer = SegmentWriter::new(make_meta());
    let bytes = writer.finish().expect("finish empty");
    let r = SegmentReader::from_bytes(bytes).expect("reader open");
    assert_eq!(r.row_group_count(), 0);
    assert_eq!(r.metadata.row_count, 0);
}

/// Writing 3 row groups makes all of them addressable via `row_group(0..N)`.
#[test]
fn writer_multiple_row_groups_reachable() {
    let mut writer = SegmentWriter::new(make_meta());
    for batch in [
        &[(100i64, &b"a"[..]), (101, &b"b"[..])][..],
        &[(200, &b"c"[..])][..],
        &[(300, &b"d"[..]), (301, &b"e"[..]), (302, &b"f"[..])][..],
    ] {
        let (h, p) = make_row_group(batch);
        writer.add_row_group(h, p);
    }
    let bytes = writer.finish().expect("finish");
    let r = SegmentReader::from_bytes(bytes).expect("open");
    assert_eq!(r.row_group_count(), 3);
    for i in 0..3 {
        let rg = r.row_group(i).expect("row_group lookup");
        assert!(rg.header.row_count >= 1);
    }
    // Total rows match the sum.
    assert_eq!(r.metadata.row_count, 2 + 1 + 3);
}

/// `set_inline_indexes` survives roundtripping through the writer/reader:
/// the bytes appear at the offset/length recorded in the footer.
#[test]
fn writer_inline_indexes_roundtrip() {
    let mut writer = SegmentWriter::new(make_meta());
    let (h, p) = make_row_group(&[(1, b"x")]);
    writer.add_row_group(h, p);
    let blob = b"\xDE\xAD\xBE\xEF--inline-indexes-blob--".to_vec();
    writer.set_inline_indexes(blob.clone());
    let bytes = writer.finish().expect("finish");
    let r = SegmentReader::from_bytes(bytes).expect("open");
    let off = r.footer.inline_indexes_offset as usize;
    let len = r.footer.inline_indexes_length as usize;
    assert_eq!(len, blob.len(), "inline_indexes length mismatch");
    assert_eq!(&r.bytes[off..off + len], blob.as_slice());
}

/// A non-default `Hotcache` set on the writer is readable via the reader's
/// `hotcache` field.
#[test]
fn writer_hotcache_is_readable() {
    let mut writer = SegmentWriter::new(make_meta());
    let (h, p) = make_row_group(&[(1, b"y")]);
    writer.add_row_group(h.clone(), p);
    let entry = ColumnHotcacheEntry {
        column_idx: 0,
        zone_map: ZoneMap::from_i64(&[1, 2, 3], 0),
        posting_offset: Some(42),
        posting_length: Some(7),
        fts_offset: None,
        fts_length: None,
        jsonpath_offset: None,
        jsonpath_length: None,
        hnsw_offset: None,
        hnsw_length: None,
    };
    let mut hc = Hotcache::new();
    hc.row_groups.push(RowGroupHotcacheEntry {
        row_group_idx: 0,
        header: h,
        columns: vec![entry.clone()],
    });
    writer.set_hotcache(hc);
    let bytes = writer.finish().expect("finish");
    let r = SegmentReader::from_bytes(bytes).expect("open");
    assert_eq!(r.hotcache.row_groups.len(), 1);
    assert_eq!(r.hotcache.row_groups[0].columns[0], entry);
}

/// Metadata observations recorded before `finish` survive into the reader's
/// `SegmentMetadata`.
#[test]
fn writer_metadata_observations_preserved() {
    let mut meta = make_meta();
    meta.observe_time(50);
    meta.observe_time(2000);
    meta.observe_commit(CommitId(3));
    meta.observe_commit(CommitId(99));
    meta.observe_trace_id(TraceId([0x10; 16]));
    meta.observe_trace_id(TraceId([0x80; 16]));
    meta.observe_span_id(SpanId([0x00; 16]));
    meta.observe_span_id(SpanId([0xFF; 16]));
    let mut writer = SegmentWriter::new(meta);
    let (h, p) = make_row_group(&[(60, b"a"), (1900, b"b")]);
    writer.add_row_group(h, p);
    let bytes = writer.finish().expect("finish");
    let r = SegmentReader::from_bytes(bytes).expect("open");
    assert_eq!(r.metadata.time_min_ms, 50);
    assert_eq!(r.metadata.time_max_ms, 2000);
    assert_eq!(r.metadata.commit_id_min, CommitId(3));
    assert_eq!(r.metadata.commit_id_max, CommitId(99));
    assert_eq!(r.metadata.trace_id_min, TraceId([0x10; 16]));
    assert_eq!(r.metadata.trace_id_max, TraceId([0x80; 16]));
    assert_eq!(r.metadata.span_id_min, SpanId([0x00; 16]));
    assert_eq!(r.metadata.span_id_max, SpanId([0xFF; 16]));
}

/// The writer's footer CRC32 is non-zero and the same content produced
/// twice yields identical bytes (deterministic emit).
#[test]
fn writer_finish_is_deterministic() {
    let make = || {
        let mut w = SegmentWriter::new(make_meta());
        let (h, p) = make_row_group(&[(10, b"q"), (20, b"r")]);
        w.add_row_group(h, p);
        w.finish().expect("finish")
    };
    let a = make();
    let b = make();
    assert_eq!(a, b, "writer must emit deterministic bytes");
    let r = SegmentReader::from_bytes(a).expect("open");
    assert!(
        r.footer.content_crc32 != 0,
        "expected a non-zero content CRC32"
    );
}

/// Build a `Footer` with all fields populated to non-default values.
fn make_footer() -> Footer {
    Footer {
        format_version: 1,
        metadata_offset: 12,
        metadata_length: 200,
        row_group_payload_offset: 220,
        row_group_payload_length: 1024,
        inline_indexes_offset: 1244,
        inline_indexes_length: 32,
        hotcache_offset: 1276,
        hotcache_length: 96,
        content_crc32: 0xDEAD_BEEF,
    }
}

/// Footer struct round-trips through bincode unchanged.
#[test]
fn footer_bincode_roundtrip() {
    let f = make_footer();
    let bytes = f.to_bytes();
    let f2 = Footer::from_bytes(&bytes).expect("deserialize");
    assert_eq!(f, f2);
}

/// Footer serializes to a fixed-shape blob whose size equals the sum of its
/// fields under bincode's default `varint = false` settings: 4 + 8 + 4 + 8
/// + 8 + 8 + 8 + 8 + 8 + 4 = 68 bytes.
#[test]
fn footer_bincode_size_matches_field_sum() {
    let f = make_footer();
    let bytes = f.to_bytes();
    // 4 + 8 + 4 + 8 + 8 + 8 + 8 + 8 + 8 + 4 = 68
    assert_eq!(bytes.len(), 68, "expected 68-byte fixed-size footer");
}

/// All offset/length fields roundtrip under boundary u64 values without
/// truncation. The reader does its own bounds-checking on these offsets,
/// so the footer itself just needs to preserve every bit.
#[test]
fn footer_preserves_high_offset_values() {
    let f = Footer {
        format_version: 1,
        metadata_offset: u64::MAX - 4,
        metadata_length: u32::MAX,
        row_group_payload_offset: u64::MAX / 2,
        row_group_payload_length: u64::MAX / 4,
        inline_indexes_offset: u64::MAX / 8,
        inline_indexes_length: u64::MAX / 16,
        hotcache_offset: u64::MAX / 32,
        hotcache_length: 0,
        content_crc32: u32::MAX,
    };
    let bytes = f.to_bytes();
    let f2 = Footer::from_bytes(&bytes).expect("deserialize");
    assert_eq!(f, f2);
    // The reader performs bounds checks against the actual segment length;
    // see `SegmentReader::from_bytes` (e.g. `m_body_end > bytes.len()`).
}

/// A 68-byte serialized footer can be deserialized from a longer buffer by
/// slicing to the known length - the segment reader uses an explicit
/// `footer_len` from the trailer to do exactly this.
#[test]
fn footer_deserializes_from_known_length_prefix() {
    let f = make_footer();
    let mut bytes = f.to_bytes();
    let original_len = bytes.len();
    bytes.extend_from_slice(b"trailing-junk");
    // The reader always slices to the recorded footer length before calling
    // it is read (see `SegmentReader::from_bytes`).
    let f2 = Footer::from_bytes(&bytes[..original_len]).expect("prefix deserialize");
    assert_eq!(f, f2);
}

/// Synthesize a `ColumnHotcacheEntry` with predictable contents for tests.
fn make_entry(col: u32) -> ColumnHotcacheEntry {
    ColumnHotcacheEntry {
        column_idx: col,
        zone_map: ZoneMap::from_i64(&[col as i64, col as i64 + 1, col as i64 + 2], 0),
        posting_offset: Some(1024),
        posting_length: Some(64),
        fts_offset: None,
        fts_length: None,
        jsonpath_offset: Some(2048),
        jsonpath_length: Some(128),
        hnsw_offset: None,
        hnsw_length: None,
    }
}

/// Synthesize a small `RowGroupHeader` for hotcache entries.
fn make_header(rows: u32) -> RowGroupHeader {
    RowGroupHeader {
        row_count: rows,
        total_bytes: 256,
        columns: vec![ColumnPageDescriptor {
            column_idx: 0,
            encoding: 0,
            page_offset: 100,
            page_length: 64,
            uncompressed_size: 200,
        }],
    }
}

/// An empty `Hotcache::new` serializes to a small bincode blob and roundtrips.
#[test]
fn empty_hotcache_serialize_small() {
    let hc = Hotcache::new();
    let bytes = hc.to_bytes();
    // Empty Vec encodes as just a length, so this should be tiny.
    assert!(
        bytes.len() < 200,
        "empty hotcache serialized to {} bytes (>=200)",
        bytes.len()
    );
    let back = Hotcache::from_bytes(&bytes).expect("deserialize");
    assert_eq!(back, hc);
    assert!(back.row_groups.is_empty());
}

/// A `Hotcache` with a few column entries roundtrips via bincode unchanged.
#[test]
fn hotcache_with_columns_roundtrip() {
    let entries: Vec<ColumnHotcacheEntry> = (0..4).map(make_entry).collect();
    let mut hc = Hotcache::new();
    hc.row_groups.push(RowGroupHotcacheEntry {
        row_group_idx: 0,
        header: make_header(8),
        columns: entries.clone(),
    });
    let bytes = hc.to_bytes();
    let back = Hotcache::from_bytes(&bytes).expect("deserialize");
    assert_eq!(back, hc);
    assert_eq!(back.row_groups[0].columns.len(), entries.len());
    assert_eq!(back.row_groups[0].columns[2], entries[2]);
}

/// Bincode deserialization of a garbage-byte payload returns `Err`, never panics.
#[test]
fn hotcache_deserialize_garbage_is_err() {
    let garbage: Vec<u8> = (0..128).map(|i| (i * 31) as u8).collect();
    let r = Hotcache::from_bytes(&garbage);
    assert!(r.is_none(), "expected deserialize Err on garbage");
}

/// Empty bytes also fail deserialize cleanly (no panic).
#[test]
fn hotcache_deserialize_empty_is_err() {
    let r = Hotcache::from_bytes(&[]);
    assert!(r.is_none(), "expected deserialize Err on empty input");
}

#[test]
fn observe_min_max() {
    let fp = SchemaFingerprint(0);
    let mut m = SegmentMetadata::new(
        0, TenantId(0), PartitionId(0), fp,
        vec!["a".to_string()], vec!["a".to_string()],
    );
    m.observe_time(1000);
    m.observe_time(50);
    m.observe_time(2000);
    assert_eq!(m.time_min_ms, 50);
    assert_eq!(m.time_max_ms, 2000);

    m.observe_commit(CommitId(7));
    m.observe_commit(CommitId(3));
    m.observe_commit(CommitId(11));
    assert_eq!(m.commit_id_min, CommitId(3));
    assert_eq!(m.commit_id_max, CommitId(11));
}

#[test]
fn bincode_roundtrip() {
    let m = SegmentMetadata::new(
        42, TenantId(1), PartitionId(2), SchemaFingerprint(99),
        vec!["x".into(), "y".into()],
        vec!["x".into()],
    );
    let bytes = m.to_bytes();
    let m2 = SegmentMetadata::from_bytes(&bytes).unwrap();
    assert_eq!(m, m2);
}

/// A list with its length in 64 bits before it.
fn counted(items: &[Vec<u8>]) -> Vec<u8> {
    let mut out = (items.len() as u64).to_le_bytes().to_vec();
    out.extend(items.concat());
    out
}

/// Bytes with their length in 64 bits before them.
fn sized(bytes: &[u8]) -> Vec<u8> {
    [&(bytes.len() as u64).to_le_bytes()[..], bytes].concat()
}

#[test]
fn footer_has_the_bincode_layout() {
    let f = make_footer();
    let want: Vec<u8> = vec![
        1, 0, 0, 0, // version
        12, 0, 0, 0, 0, 0, 0, 0, 200, 0, 0, 0, // metadata
        220, 0, 0, 0, 0, 0, 0, 0, 0, 4, 0, 0, 0, 0, 0, 0, // row groups
        0xdc, 4, 0, 0, 0, 0, 0, 0, 32, 0, 0, 0, 0, 0, 0, 0, // inline indexes
        0xfc, 4, 0, 0, 0, 0, 0, 0, 96, 0, 0, 0, 0, 0, 0, 0, // hotcache
        0xef, 0xbe, 0xad, 0xde, // checksum
    ];
    assert_eq!(f.to_bytes(), want);
    assert!(Footer::from_bytes(&f.to_bytes()[..67]).is_none());
}

#[test]
fn metadata_has_the_bincode_layout() {
    let mut m = SegmentMetadata::new(
        42,
        TenantId(1),
        PartitionId(2),
        SchemaFingerprint(99),
        vec!["x".into(), "y".into()],
        vec!["x".into()],
    );
    m.observe_time(-5);
    m.observe_commit(CommitId(6));
    m.observe_trace_id(TraceId([7; 16]));
    m.observe_span_id(SpanId([8; 16]));
    let want = [
        &42u128.to_le_bytes()[..],
        &1u64.to_le_bytes(),
        &2u32.to_le_bytes(),
        &99u128.to_le_bytes(),
        &(-5i64).to_le_bytes(),
        &(-5i64).to_le_bytes(),
        &6u64.to_le_bytes(),
        &6u64.to_le_bytes(),
        &0u64.to_le_bytes(),
        &[7; 16],
        &[7; 16],
        &[8; 16],
        &[8; 16],
        &counted(&[sized(b"x")]),
        &counted(&[sized(b"x"), sized(b"y")]),
    ]
    .concat();
    assert_eq!(m.to_bytes(), want);
    assert!(SegmentMetadata::from_bytes(&want[..want.len() - 1]).is_none());
}

#[test]
fn hotcache_has_the_bincode_layout() {
    let mut hc = Hotcache::new();
    let mut bytes_entry = make_entry(1);
    bytes_entry.zone_map = ZoneMap::from_bytes(&[&b"b"[..], &b"a"[..]], 3);
    let mut fixed_entry = make_entry(2);
    fixed_entry.zone_map = ZoneMap {
        value: ZoneMapValue::Fixed {
            min: vec![0],
            max: vec![9],
        },
        null_count: 0,
    };
    let mut unknown_entry = make_entry(3);
    unknown_entry.zone_map = ZoneMap::default();
    hc.row_groups.push(RowGroupHotcacheEntry {
        row_group_idx: 5,
        header: make_header(8),
        columns: vec![make_entry(0), bytes_entry, fixed_entry, unknown_entry],
    });
    let descriptor = [
        &0u32.to_le_bytes()[..],
        &[0],
        &100u64.to_le_bytes(),
        &64u32.to_le_bytes(),
        &200u64.to_le_bytes(),
    ]
    .concat();
    // Two places that are there, each before two fields that are not.
    let places = [
        &[1][..],
        &1024u64.to_le_bytes(),
        &[1],
        &64u32.to_le_bytes(),
        &[0, 0, 1],
        &2048u64.to_le_bytes(),
        &[1],
        &128u32.to_le_bytes(),
        &[0, 0],
    ]
    .concat();
    // The column, the kind of its range and the range.
    let numbers = [
        &0u32.to_le_bytes()[..],
        &1u32.to_le_bytes(),
        &0i64.to_le_bytes(),
        &2i64.to_le_bytes(),
        &0u32.to_le_bytes(),
        &places,
    ]
    .concat();
    let texts = [
        &1u32.to_le_bytes()[..],
        &2u32.to_le_bytes(),
        &sized(b"a"),
        &sized(b"b"),
        &3u32.to_le_bytes(),
        &places,
    ]
    .concat();
    let fixed = [
        &2u32.to_le_bytes()[..],
        &3u32.to_le_bytes(),
        &sized(&[0]),
        &sized(&[9]),
        &0u32.to_le_bytes(),
        &places,
    ]
    .concat();
    let unknown = [
        &3u32.to_le_bytes()[..],
        &0u32.to_le_bytes(),
        &0u32.to_le_bytes(),
        &places,
    ]
    .concat();
    let group = [
        &5u32.to_le_bytes()[..],
        &8u32.to_le_bytes(),
        &256u64.to_le_bytes(),
        &counted(&[descriptor]),
        &counted(&[numbers, texts, fixed, unknown]),
    ]
    .concat();
    let want = counted(&[group]);
    assert_eq!(hc.to_bytes(), want);
    assert_eq!(Hotcache::from_bytes(&want).unwrap(), hc);
}

#[test]
fn hotcache_of_several_groups_roundtrips() {
    for n_groups in 0..4u32 {
        for n_columns in [0u32, 1, 15] {
            let mut hc = Hotcache::new();
            for g in 0..n_groups {
                hc.row_groups.push(RowGroupHotcacheEntry {
                    row_group_idx: g,
                    header: make_header(g + 1),
                    columns: (0..n_columns).map(make_entry).collect(),
                });
            }
            assert_eq!(Hotcache::from_bytes(&hc.to_bytes()).unwrap(), hc);
        }
    }
}

#[test]
fn zone_maps_hold_the_bounds() {
    let z = ZoneMap::from_i64(&[5, -2, 9], 1);
    assert_eq!(z.null_count, 1);
    assert_eq!(z.value, ZoneMapValue::I64 { min: -2, max: 9 });
    let z = ZoneMap::from_bytes(&[&b"pear"[..], &b"apple"[..]], 0);
    assert_eq!(
        z.value,
        ZoneMapValue::Bytes {
            min: b"apple".to_vec(),
            max: b"pear".to_vec()
        }
    );
    assert_eq!(ZoneMap::from_i64(&[], 0).value, ZoneMapValue::Unknown);
}

#[test]
fn damaged_segments_are_rejected() {
    let bytes = build_simple_segment();
    for cut in [0, 7, 20, bytes.len() / 2, bytes.len() - 1] {
        assert!(SegmentReader::from_bytes(bytes[..cut].to_vec()).is_err());
    }
    let mut tail = bytes.clone();
    let last = tail.len() - 1;
    tail[last] ^= 1;
    assert!(SegmentReader::from_bytes(tail).is_err());
}

#[test]
fn rows_are_read_in_the_order_asked_for() {
    let r = SegmentReader::from_bytes(build_simple_segment()).unwrap();
    let got = r.read_rows(0, 1, &[2, 0, 2]).unwrap();
    let times: Vec<i64> = got
        .iter()
        .map(|v| match v {
            RowValue::I64(t) => *t,
            _ => panic!("expected a number"),
        })
        .collect();
    assert_eq!(times, vec![2000, 1000, 2000]);
    assert!(r.read_rows(0, 1, &[3]).is_err());
    assert!(r.read_column(1, 0).is_err());
    assert!(r.read_column(0, 9).is_err());
    assert!(r.row_group(1).is_err());
    assert_eq!(r.column_encoding(0, 2).unwrap(), PageEncoding::Dict);
    assert_eq!(
        r.open_page(0, 3).unwrap().row_count(),
        3
    );
}

#[test]
fn row_group_headers_read_back() {
    let header = make_header(8);
    let mut bytes = Vec::new();
    header.write(&mut bytes);
    let mut c = Cursor::new(&bytes);
    assert_eq!(RowGroupHeader::read(&mut c).unwrap(), header);
    let mut short = Cursor::new(&bytes[..bytes.len() - 1]);
    assert!(RowGroupHeader::read(&mut short).is_none());
}

#[test]
fn sorting_is_stable() {
    let items = vec![b"b".to_vec(), b"a".to_vec(), b"b".to_vec(), b"".to_vec()];
    assert_eq!(sort_order(&items), vec![3, 1, 0, 2]);
}
