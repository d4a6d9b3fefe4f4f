use zenithdb::common::errors::ZenError;
use zenithdb::common::record::SpanRecord;
use zenithdb::common::types::{PartitionId, TenantId};
use zenithdb::fts::blob::{
    frame_blob, is_tantivy_lock_file, pack_files, split_blob, unpack_files, IndexFile,
    ManifestEntry,
};
use zenithdb::fts::documents::{documents, index_fields, BuildOptions, SpanFieldAccessor};
use zenithdb::fts::mask::{extract_u64_from_value, row_mask, Hit, StoredValue};

#[test]
fn default_build_options_are_sensible() {
    let opts = BuildOptions::default();
    assert!(
        !opts.field_names.is_empty(),
        "default field_names must be non-empty"
    );
    // The default schema includes "prompt" and "completion" by name.
    assert!(opts.field_names.iter().any(|f| f == "prompt"));
    assert!(opts.field_names.iter().any(|f| f == "completion"));
    assert!(
        opts.writer_memory_bytes >= 15_000_000,
        "writer memory must clear Tantivy's per-thread minimum"
    );
}

#[test]
fn missing_field_names_returns_error() {
    let rows = vec![SpanRecord::new(TenantId(1), PartitionId(0))];
    let opts = BuildOptions {
        field_names: vec![],
        writer_memory_bytes: 15_000_000,
    };
    let r = documents(&SpanFieldAccessor { rows: &rows }, &opts);
    assert!(r.is_err(), "empty field_names must fail fast");
}

#[test]
fn documents_hold_the_texts_of_their_rows() {
    let mut a = SpanRecord::new(TenantId(1), PartitionId(0));
    a.prompt = Some("p".into());
    a.tool_io_text = Some("t".into());
    let b = SpanRecord::new(TenantId(1), PartitionId(0));
    let rows = vec![a, b];
    let docs = documents(&SpanFieldAccessor { rows: &rows }, &BuildOptions::default()).unwrap();
    assert_eq!(docs.len(), 2);
    assert_eq!(docs[0].row_idx, 0);
    assert_eq!(
        docs[0].texts,
        vec![(0, "p".to_string()), (2, "t".to_string())]
    );
    assert_eq!(docs[1].row_idx, 1);
    assert!(docs[1].texts.is_empty());
}

fn file(name: &str, bytes: &[u8]) -> IndexFile {
    IndexFile {
        name: name.into(),
        bytes: bytes.to_vec(),
    }
}

#[test]
fn lock_files_are_known() {
    assert!(is_tantivy_lock_file(".tantivy-writer.lock"));
    assert!(is_tantivy_lock_file(".tantivy-meta.lock"));
    assert!(!is_tantivy_lock_file("meta.json"));
}

#[test]
fn files_are_packed_by_name_without_locks() {
    let (manifest, payload) = pack_files(&vec![
        file("meta.json", b"{}"),
        file(".tantivy-writer.lock", b"lock"),
        file("a.store", b"abc"),
        file("b.idx", b""),
    ]);
    assert_eq!(payload, b"abc{}");
    let listed: Vec<(String, u64, u64)> = manifest
        .iter()
        .map(|e| (e.name.clone(), e.offset, e.length))
        .collect();
    assert_eq!(
        listed,
        vec![
            ("a.store".to_string(), 0, 3),
            ("b.idx".to_string(), 3, 0),
            ("meta.json".to_string(), 3, 2)
        ]
    );
    let back = unpack_files(&manifest, &payload).unwrap();
    assert_eq!(back.len(), 3);
    assert_eq!(back[2].name, "meta.json");
    assert_eq!(back[2].bytes, b"{}");
}

#[test]
fn blobs_are_framed_and_split() {
    let blob = frame_blob(b"[]", b"data");
    assert_eq!(blob, b"\x02\x00\x00\x00[]data");
    let (manifest, payload) = split_blob(&blob).unwrap();
    assert_eq!(manifest, b"[]");
    assert_eq!(payload, b"data");
    match split_blob(&blob[..3]) {
        Err(ZenError::Format(m)) => assert_eq!(m, "FTS blob too small"),
        _ => panic!(),
    }
    match split_blob(&blob[..5]) {
        Err(ZenError::Format(m)) => assert_eq!(m, "FTS manifest truncated"),
        _ => panic!(),
    }
}

#[test]
fn entries_outside_the_payload_are_rejected() {
    let entry = |name: &str, offset: u64, length: u64| ManifestEntry {
        name: name.into(),
        offset,
        length,
    };
    for (offset, length) in [(0, 5), (5, 0), (u64::MAX, 1), (1, u64::MAX)] {
        match unpack_files(&vec![entry("f", offset, length)], b"data") {
            Err(ZenError::Format(m)) => assert_eq!(m, "FTS payload truncated"),
            _ => panic!("expected a truncation"),
        }
    }
    // A lock file is passed over, wherever it points.
    let files = unpack_files(&vec![entry(".tantivy-meta.lock", 9, 9)], b"data").unwrap();
    assert!(files.is_empty());
}

#[test]
fn the_row_field_is_told_apart() {
    let names = vec![
        "prompt".to_string(),
        "__row_idx".to_string(),
        "completion".to_string(),
    ];
    let f = index_fields(&names).unwrap();
    assert_eq!(f.row_idx, 1);
    assert_eq!(f.texts, vec![0, 2]);
    match index_fields(&vec!["prompt".to_string()]) {
        Err(ZenError::Format(m)) => assert_eq!(m, "FTS index missing __row_idx field"),
        _ => panic!(),
    }
}

#[test]
fn row_masks_hold_the_rows_of_the_hits() {
    let mask = row_mask(&vec![
        Hit::Fast(7),
        Hit::Stored(Some(StoredValue::U64(3))),
        Hit::Stored(Some(StoredValue::I64(5))),
        Hit::Stored(Some(StoredValue::I64(-1))),
        Hit::Stored(Some(StoredValue::Other)),
        Hit::Stored(None),
        Hit::Fast(7),
        Hit::Fast(0x1_0000_0002),
    ]);
    let rows: Vec<u32> = mask.iter().collect();
    assert_eq!(rows, vec![2, 3, 5, 7, u32::MAX]);
    assert!(row_mask(&vec![]).is_empty());
    assert_eq!(extract_u64_from_value(&StoredValue::U64(9)), Some(9));
    assert_eq!(extract_u64_from_value(&StoredValue::Other), None);
}
