use zenithdb::common::config::{
    catalog_backend, default_tenant_burst, default_tenant_qps, CatalogBackend, Config,
    EnvOverrides,
};
use zenithdb::common::errors::ZenError;
use zenithdb::common::record::SpanRecord;
use zenithdb::common::schema::{ColumnSpec, ColumnType, IndexHint, Schema};
use zenithdb::common::time::{millis_of, now_millis, MilliInstant};
use zenithdb::common::types::{
    CommitId, PartitionId, SchemaFingerprint, SpanId, SpanStatus, SpanType, TenantId, TraceId,
};

#[test]
fn defaults_are_valid() {
    Config::default().validate().unwrap();
}

/// The defaults, with what a document sets on top.
fn config_of(doc: &str) -> Config {
    let v: toml::Value = toml::from_str(doc).unwrap();
    let text = |table: &str, key: &str| -> Option<String> {
        v.get(table)
            .and_then(|t| t.get(key))
            .and_then(|x| x.as_str())
            .map(|x| x.to_string())
    };
    let mut cfg = Config::default();
    cfg.apply_env_overrides(EnvOverrides {
        listen: text("server", "listen"),
        http_listen: text("server", "http_listen"),
        storage_backend: text("storage", "backend"),
        fs_root: text("storage", "fs_root"),
        catalog_backend: text("catalog", "backend"),
        sqlite_path: text("catalog", "sqlite_path"),
        postgres_url: text("catalog", "postgres_url"),
        log_level: text("telemetry", "log_level"),
    });
    cfg
}

#[test]
fn parses_dev_toml_minimal() {
    let s = r#"
            [server]
            listen = "127.0.0.1:50000"
            http_listen = "127.0.0.1:8000"

            [storage]
            backend = "fs"
            fs_root = "./tmp"
            nvme_cache_dir = "./tmp/cache"
            nvme_cache_bytes = 1024

            [catalog]
            backend = "sqlite"
            sqlite_path = "./tmp/zenith.db"
        "#;
    let cfg = config_of(s);
    cfg.validate().unwrap();
    assert_eq!(cfg.server.listen, "127.0.0.1:50000");
    assert_eq!(cfg.storage.backend, "fs");
}

#[test]
fn rejects_unknown_storage_backend() {
    let s = r#"
            [storage]
            backend = "wat"
            fs_root = "x"
            nvme_cache_dir = "x"
            nvme_cache_bytes = 1
            [catalog]
            backend = "sqlite"
            sqlite_path = "x"
        "#;
    let r = config_of(s).validate();
    assert!(r.is_err());
    assert_eq!(
        r.unwrap_err().to_string(),
        "invalid argument: unknown storage backend: wat"
    );
}

#[test]
fn postgres_requires_url() {
    let s = r#"
            [catalog]
            backend = "postgres"
            sqlite_path = "x"
        "#;
    assert!(config_of(s).validate().is_err());
}

#[test]
fn validation_faults_in_order() {
    let mut c = Config::default();
    c.ingest.flush_max_bytes = 0;
    match c.validate() {
        Err(ZenError::Invalid(m)) => assert_eq!(m, "ingest.flush_max_bytes must be > 0"),
        _ => panic!(),
    }
    c.catalog.backend = "postgres".into();
    match c.validate() {
        Err(ZenError::Invalid(m)) => {
            assert_eq!(m, "catalog.backend=postgres requires catalog.postgres_url")
        }
        _ => panic!(),
    }
    c.catalog.backend = "mysql".into();
    match c.validate() {
        Err(ZenError::Invalid(m)) => assert_eq!(m, "unknown catalog backend: mysql"),
        _ => panic!(),
    }
    c.storage.backend = "tape".into();
    match c.validate() {
        Err(ZenError::Invalid(m)) => assert_eq!(m, "unknown storage backend: tape"),
        _ => panic!(),
    }
}

#[test]
fn defaults_have_their_values() {
    let c = Config::default();
    assert_eq!(c.server.listen, "0.0.0.0:50051");
    assert_eq!(c.server.http_listen, "0.0.0.0:8080");
    assert_eq!(c.storage.nvme_cache_bytes, 4 * 1024 * 1024 * 1024);
    assert_eq!(c.catalog.sqlite_path, "./data/zenith.db");
    assert_eq!(c.ingest.flush_max_bytes, 64 * 1024 * 1024);
    assert_eq!(c.compact.target_segment_bytes, 512 * 1024 * 1024);
    assert_eq!(c.query.tenant_qps_limit, default_tenant_qps());
    assert_eq!(c.query.tenant_burst, default_tenant_burst());
    assert_eq!(
        c.fts.indexed_fields,
        vec!["prompt", "completion", "tool_io_text"]
    );
    assert_eq!(
        c.bitmap_index.indexed_columns,
        vec!["model", "tool_name", "status", "span_type", "provider"]
    );
    assert_eq!(f64::from_bits(c.jsonpath_index.min_presence_pct), 1.0);
    assert_eq!(c.vector.dimensions, 1536);
    assert!(!c.crypto.enabled);
    assert_eq!(c.auth.jwks_url, "");
}

#[test]
fn overrides_replace_only_what_is_set() {
    let mut c = Config::default();
    c.apply_env_overrides(EnvOverrides {
        listen: None,
        http_listen: Some("h:1".into()),
        storage_backend: None,
        fs_root: None,
        catalog_backend: None,
        sqlite_path: None,
        postgres_url: Some("postgres://x".into()),
        log_level: Some("debug".into()),
    });
    assert_eq!(c.server.listen, "0.0.0.0:50051");
    assert_eq!(c.server.http_listen, "h:1");
    assert_eq!(c.catalog.postgres_url, Some("postgres://x".to_string()));
    assert_eq!(c.catalog.backend, "sqlite");
    assert_eq!(c.telemetry.log_level, "debug");
}

#[test]
fn catalog_is_chosen_by_backend() {
    let mut c = Config::default().catalog;
    match catalog_backend(&c) {
        Err(ZenError::Catalog(m)) => assert_eq!(
            m,
            "unknown catalog backend: sqlite (valid: postgres, mock)"
        ),
        _ => panic!(),
    }
    c.backend = "mock".into();
    assert!(matches!(catalog_backend(&c), Ok(CatalogBackend::Mock)));
    c.backend = "postgres".into();
    assert!(matches!(catalog_backend(&c), Err(ZenError::Catalog(_))));
    c.postgres_url = Some("postgres://x".into());
    match catalog_backend(&c) {
        Ok(CatalogBackend::Postgres(u)) => assert_eq!(u, "postgres://x"),
        _ => panic!(),
    }
}

#[test]
fn helpers_construct() {
    let e = ZenError::format("bad magic");
    assert!(matches!(e, ZenError::Format(_)));
    assert_eq!(e.to_string(), "format: bad magic");
}

#[test]
fn helpers_construct_each_kind() {
    assert!(matches!(ZenError::invalid("x"), ZenError::Invalid(_)));
    assert!(matches!(ZenError::not_found("x"), ZenError::NotFound(_)));
    assert!(matches!(ZenError::conflict("x"), ZenError::Conflict(_)));
    assert!(matches!(ZenError::compress("x"), ZenError::Compress(_)));
    assert!(matches!(ZenError::storage("x"), ZenError::Storage(_)));
    assert!(matches!(ZenError::catalog("x"), ZenError::Catalog(_)));
    assert!(matches!(ZenError::query("x"), ZenError::Query(_)));
    assert!(matches!(ZenError::compactor("x"), ZenError::Compactor(_)));
    assert!(matches!(ZenError::internal("x"), ZenError::Internal(_)));
}

#[test]
fn fingerprint_is_stable() {
    let a = Schema::spans_v1().fingerprint();
    let b = Schema::spans_v1().fingerprint();
    assert_eq!(a, b);
}

#[test]
fn fingerprint_changes_with_schema() {
    let a = Schema::spans_v1().fingerprint();
    let mut s2 = Schema::spans_v1();
    s2.columns.push(ColumnSpec::new("extra", ColumnType::Int32));
    assert_ne!(a, s2.fingerprint());
}

#[test]
fn sort_keys_are_priority_ordered() {
    let s = Schema::spans_v1();
    let keys = s.sort_key_columns();
    let names: Vec<&str> = keys.iter().map(|i| s.columns[*i].name.as_str()).collect();
    assert_eq!(names, vec!["trace_id", "start_time_ms", "span_id"]);
}

#[test]
fn index_of_finds_columns() {
    let s = Schema::spans_v1();
    assert_eq!(s.index_of("model"), Some(11));
    assert_eq!(s.index_of("nope"), None);
}

#[test]
fn column_specs_are_built_up() {
    let c = ColumnSpec::new("x", ColumnType::Int64);
    assert!(c.nullable);
    let c = c
        .required()
        .with_index(IndexHint::Bitmap)
        .with_sort_priority(4);
    assert!(!c.nullable);
    assert_eq!(c.sort_priority, 4);
    let s = Schema::new(vec![c]);
    assert_eq!(s.index_of("x"), Some(0));
    assert_eq!(s.sort_key_columns(), vec![0]);
}

#[test]
fn now_millis_is_recent() {
    let t = now_millis();
    // 2026-05-06 epoch ms is roughly 1.778e12; sanity check.
    assert!(t > 1_700_000_000_000);
    assert!(t < 4_000_000_000_000);
}

#[test]
fn readings_are_rounded_down() {
    assert_eq!(millis_of(None), 0);
    assert_eq!(millis_of(Some((0, 999_999))), 0);
    assert_eq!(millis_of(Some((0, 1_000_000))), 1);
    assert_eq!(millis_of(Some((1_700_000_000, 999_999_999))), 1_700_000_000_999);
    // Only the low 64 bits count.
    assert_eq!(millis_of(Some((u64::MAX, 0))), -1000);
}

#[test]
fn milli_instant_elapsed() {
    assert_eq!(MilliInstant(70).elapsed_since(MilliInstant(50)), 20);
    let a = MilliInstant::now();
    let b = MilliInstant::now();
    assert!(b.elapsed_since(a) >= 0);
    assert_eq!(MilliInstant(9).ms(), 9);
}

#[test]
fn trace_id_roundtrip() {
    let id = TraceId::new_random();
    let s = id.to_string();
    let parsed: TraceId = s.parse().unwrap();
    assert_eq!(id, parsed);
    let bytes = *id.as_bytes();
    assert_eq!(TraceId::from_bytes(bytes), id);
    assert_eq!(TraceId::from_u128(id.to_u128()), id);
}

#[test]
fn span_id_roundtrip() {
    let id = SpanId::new_random();
    let s = id.to_string();
    let parsed: SpanId = s.parse().unwrap();
    assert_eq!(id, parsed);
}

#[test]
fn id_text_has_its_exact_value() {
    let id = TraceId::from_u128(0x0123_4567_89ab_cdef_0123_4567_89ab_cdef);
    assert_eq!(
        id.to_string(),
        ulid::Ulid(0x0123_4567_89ab_cdef_0123_4567_89ab_cdef).to_string()
    );
    assert_eq!(id.as_bytes()[0], 0x01);
    assert_eq!(id.as_bytes()[15], 0xef);
    assert_eq!(TraceId::from_u128(0).to_string(), "00000000000000000000000000");
    assert!(TraceId::parse("too short").is_err());
    assert!(SpanId::parse("0000000000000000000000000U").is_err());
    assert_eq!(TenantId(12).to_string(), "t000000000000000c");
    assert_eq!(PartitionId(0).to_string(), "p00000000");
    assert_eq!(CommitId(9).to_string(), "c00000000000000000009");
    assert_eq!(
        SchemaFingerprint(0xabc).to_string(),
        "sf:00000000000000000000000000000abc"
    );
}

#[test]
fn commit_id_next_is_monotonic() {
    let a = CommitId::new(7);
    let b = a.next();
    assert!(b.0 > a.0);
    assert_eq!(b.0, 8);
}

#[test]
fn span_type_status_strings_stable() {
    assert_eq!(SpanType::LlmCall.as_str(), "llm_call");
    assert_eq!(SpanStatus::Okay.as_str(), "ok");
}

#[test]
fn span_record_default_construction() {
    let s = SpanRecord::new(TenantId(1), PartitionId(0));
    assert_eq!(s.tenant_id, TenantId(1));
    assert_eq!(s.partition_id, PartitionId(0));
    assert_ne!(s.trace_id, TraceId::default());
}
