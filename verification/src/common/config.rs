//! Top-level server configuration.
//!
//! Read from a file, with environment variables on top for the most important settings.
use crate::common::errors::{ErrorView, ZenError};
use crate::cursor::string_views;
use crate::text::{concat2, concat3, text_eq};
use vstd::prelude::*;
use vstd::string::*;

verus! {

#[derive(Clone, Debug)]
pub struct Config {
    pub server: ServerConfig,
    pub storage: StorageConfig,
    pub catalog: CatalogConfig,
    pub ingest: IngestConfig,
    pub compact: CompactConfig,
    pub query: QueryConfig,
    pub fts: FtsConfig,
    pub bitmap_index: BitmapIndexConfig,
    pub jsonpath_index: JsonPathIndexConfig,
    pub vector: VectorConfig,
    pub telemetry: TelemetryConfig,
    pub auth: AuthConfig,
    pub crypto: CryptoConfig,
}

/// Encryption-at-rest settings. Off by default.
#[derive(Clone, Debug)]
pub struct CryptoConfig {
    pub enabled: bool,
    /// Path to a file holding the 32-byte root key. Either raw bytes (file is exactly 32
    /// bytes long) or 64 hex characters.
    pub root_key_path: String,
}

impl CryptoConfig {
    pub open spec fn is_default(self) -> bool {
        !self.enabled && self.root_key_path@ == ""@
    }
}

impl Default for CryptoConfig {
    fn default() -> (r: Self)
        ensures
            r.is_default(),
    {
        CryptoConfig { enabled: false, root_key_path: String::from_str("") }
    }
}

#[derive(Clone, Debug)]
pub struct ServerConfig {
    pub listen: String,
    pub http_listen: String,
    pub tls: TlsConfig,
}

impl ServerConfig {
    pub open spec fn is_default(self) -> bool {
        self.listen@ == "0.0.0.0:50051"@ && self.http_listen@ == "0.0.0.0:8080"@
            && self.tls.is_default()
    }
}

impl Default for ServerConfig {
    fn default() -> (r: Self)
        ensures
            r.is_default(),
    {
        ServerConfig {
            listen: String::from_str("0.0.0.0:50051"),
            http_listen: String::from_str("0.0.0.0:8080"),
            tls: TlsConfig::default(),
        }
    }
}

/// TLS settings for the listeners. Empty `cert_path` means plain HTTP.
#[derive(Clone, Debug)]
pub struct TlsConfig {
    pub cert_path: String,
    pub key_path: String,
    /// Optional path to a CA bundle used to verify client certificates. Empty means client
    /// certificates aren't required.
    pub client_ca_path: String,
}

impl TlsConfig {
    pub open spec fn is_default(self) -> bool {
        self.cert_path@ == ""@ && self.key_path@ == ""@ && self.client_ca_path@ == ""@
    }
}

impl Default for TlsConfig {
    fn default() -> (r: Self)
        ensures
            r.is_default(),
    {
        TlsConfig {
            cert_path: String::from_str(""),
            key_path: String::from_str(""),
            client_ca_path: String::from_str(""),
        }
    }
}

/// Authentication settings. When all fields are empty, authentication is off.
#[derive(Clone, Debug)]
pub struct AuthConfig {
    /// Address of the identity provider's key set. When empty, tokens are not verified.
    pub jwks_url: String,
    /// Shared secret for requests between nodes. When empty, internal endpoints are open.
    pub internal_secret: String,
}

impl AuthConfig {
    pub open spec fn is_default(self) -> bool {
        self.jwks_url@ == ""@ && self.internal_secret@ == ""@
    }
}

impl Default for AuthConfig {
    fn default() -> (r: Self)
        ensures
            r.is_default(),
    {
        AuthConfig { jwks_url: String::from_str(""), internal_secret: String::from_str("") }
    }
}

#[derive(Clone, Debug)]
pub struct StorageConfig {
    /// One of `fs`, `s3`, `gcs`, `azure` and `memory`.
    pub backend: String,
    pub fs_root: String,
    pub bucket: Option<String>,
    pub region: Option<String>,
    pub endpoint: Option<String>,
    pub access_key: Option<String>,
    pub secret_key: Option<String>,
    pub nvme_cache_dir: String,
    pub nvme_cache_bytes: u64,
}

impl StorageConfig {
    pub open spec fn is_default(self) -> bool {
        &&& self.backend@ == "fs"@
        &&& self.fs_root@ == "./data/blobs"@
        &&& self.bucket is None && self.region is None && self.endpoint is None
        &&& self.access_key is None && self.secret_key is None
        &&& self.nvme_cache_dir@ == "./data/cache"@
        &&& self.nvme_cache_bytes == 4_294_967_296
    }
}

impl Default for StorageConfig {
    fn default() -> (r: Self)
        ensures
            r.is_default(),
    {
        StorageConfig {
            backend: String::from_str("fs"),
            fs_root: String::from_str("./data/blobs"),
            bucket: None,
            region: None,
            endpoint: None,
            access_key: None,
            secret_key: None,
            nvme_cache_dir: String::from_str("./data/cache"),
            nvme_cache_bytes: 4_294_967_296,
        }
    }
}

#[derive(Clone, Debug)]
pub struct CatalogConfig {
    /// One of `sqlite` and `postgres`.
    pub backend: String,
    pub sqlite_path: String,
    pub postgres_url: Option<String>,
}

impl CatalogConfig {
    pub open spec fn is_default(self) -> bool {
        self.backend@ == "sqlite"@ && self.sqlite_path@ == "./data/zenith.db"@
            && self.postgres_url is None
    }
}

impl Default for CatalogConfig {
    fn default() -> (r: Self)
        ensures
            r.is_default(),
    {
        CatalogConfig {
            backend: String::from_str("sqlite"),
            sqlite_path: String::from_str("./data/zenith.db"),
            postgres_url: None,
        }
    }
}

#[derive(Clone, Copy, Debug, PartialEq, Eq, Structural)]
pub struct IngestConfig {
    pub flush_interval_ms: u64,
    pub flush_max_bytes: u64,
    pub writer_threads: u32,
}

impl Default for IngestConfig {
    fn default() -> (r: Self)
        ensures
            r == (IngestConfig {
                flush_interval_ms: 100,
                flush_max_bytes: 67_108_864,
                writer_threads: 4,
            }),
    {
        IngestConfig { flush_interval_ms: 100, flush_max_bytes: 67_108_864, writer_threads: 4 }
    }
}

#[derive(Clone, Copy, Debug, PartialEq, Eq, Structural)]
pub struct CompactConfig {
    pub trigger_wal_count: u32,
    pub trigger_wal_bytes: u64,
    pub trigger_age_seconds: u64,
    pub target_segment_bytes: u64,
    pub worker_threads: u32,
}

impl Default for CompactConfig {
    fn default() -> (r: Self)
        ensures
            r == (CompactConfig {
                trigger_wal_count: 32,
                trigger_wal_bytes: 268_435_456,
                trigger_age_seconds: 300,
                target_segment_bytes: 536_870_912,
                worker_threads: 2,
            }),
    {
        CompactConfig {
            trigger_wal_count: 32,
            trigger_wal_bytes: 268_435_456,
            trigger_age_seconds: 300,
            target_segment_bytes: 536_870_912,
            worker_threads: 2,
        }
    }
}

#[derive(Clone, Copy, Debug, PartialEq, Eq, Structural)]
pub struct QueryConfig {
    pub max_concurrent_queries: u32,
    pub result_cache_max_bytes: u64,
    /// Per-tenant request budget in QPS. 0 disables rate limiting.
    pub tenant_qps_limit: u32,
    /// Burst capacity per tenant: number of requests allowed back-to-back before the bucket
    /// starts throttling.
    pub tenant_burst: u32,
}

pub fn default_tenant_qps() -> (r: u32)
    ensures
        r == 100,
{
    100
}

pub fn default_tenant_burst() -> (r: u32)
    ensures
        r == 1000,
{
    1000
}

impl Default for QueryConfig {
    fn default() -> (r: Self)
        ensures
            r == (QueryConfig {
                max_concurrent_queries: 256,
                result_cache_max_bytes: 1_073_741_824,
                tenant_qps_limit: 100,
                tenant_burst: 1000,
            }),
    {
        QueryConfig {
            max_concurrent_queries: 256,
            result_cache_max_bytes: 1_073_741_824,
            tenant_qps_limit: default_tenant_qps(),
            tenant_burst: default_tenant_burst(),
        }
    }
}

#[derive(Clone, Debug)]
pub struct FtsConfig {
    pub indexed_fields: Vec<String>,
}

impl FtsConfig {
    pub open spec fn is_default(self) -> bool {
        string_views(self.indexed_fields@) == seq!["prompt"@, "completion"@, "tool_io_text"@]
    }
}

impl Default for FtsConfig {
    fn default() -> (r: Self)
        ensures
            r.is_default(),
    {
        let indexed_fields: Vec<String> = vec![
            String::from_str("prompt"),
            String::from_str("completion"),
            String::from_str("tool_io_text"),
        ];
        assert(string_views(indexed_fields@) =~= seq![
            "prompt"@,
            "completion"@,
            "tool_io_text"@,
        ]);
        FtsConfig { indexed_fields }
    }
}

#[derive(Clone, Debug)]
pub struct BitmapIndexConfig {
    pub indexed_columns: Vec<String>,
}

impl BitmapIndexConfig {
    pub open spec fn is_default(self) -> bool {
        string_views(self.indexed_columns@) == seq![
            "model"@,
            "tool_name"@,
            "status"@,
            "span_type"@,
            "provider"@,
        ]
    }
}

impl Default for BitmapIndexConfig {
    fn default() -> (r: Self)
        ensures
            r.is_default(),
    {
        let indexed_columns: Vec<String> = vec![
            String::from_str("model"),
            String::from_str("tool_name"),
            String::from_str("status"),
            String::from_str("span_type"),
            String::from_str("provider"),
        ];
        assert(string_views(indexed_columns@) =~= seq![
            "model"@,
            "tool_name"@,
            "status"@,
            "span_type"@,
            "provider"@,
        ]);
        BitmapIndexConfig { indexed_columns }
    }
}

/// JSON-path discovery. The percentage is held by its bit pattern.
#[derive(Clone, Copy, Debug, PartialEq, Eq, Structural)]
pub struct JsonPathIndexConfig {
    pub sample_size: u32,
    pub min_presence_pct: u64,
    pub max_paths_per_segment: u32,
}

impl Default for JsonPathIndexConfig {
    /// The percentage is one.
    fn default() -> (r: Self)
        ensures
            r == (JsonPathIndexConfig {
                sample_size: 10_000,
                min_presence_pct: 0x3ff0_0000_0000_0000,
                max_paths_per_segment: 256,
            }),
    {
        JsonPathIndexConfig {
            sample_size: 10_000,
            min_presence_pct: 0x3ff0_0000_0000_0000,
            max_paths_per_segment: 256,
        }
    }
}

#[derive(Clone, Copy, Debug, PartialEq, Eq, Structural)]
pub struct VectorConfig {
    pub enabled: bool,
    pub dimensions: u32,
    pub hnsw_m: u32,
    pub hnsw_ef_construction: u32,
    pub hnsw_ef_search: u32,
    pub quantize: bool,
}

impl Default for VectorConfig {
    fn default() -> (r: Self)
        ensures
            r == (VectorConfig {
                enabled: true,
                dimensions: 1536,
                hnsw_m: 16,
                hnsw_ef_construction: 200,
                hnsw_ef_search: 50,
                quantize: false,
            }),
    {
        VectorConfig {
            enabled: true,
            dimensions: 1536,
            hnsw_m: 16,
            hnsw_ef_construction: 200,
            hnsw_ef_search: 50,
            quantize: false,
        }
    }
}

#[derive(Clone, Debug)]
pub struct TelemetryConfig {
    pub log_level: String,
    pub otlp_endpoint: String,
}

impl TelemetryConfig {
    pub open spec fn is_default(self) -> bool {
        self.log_level@ == "info"@ && self.otlp_endpoint@ == ""@
    }
}

impl Default for TelemetryConfig {
    fn default() -> (r: Self)
        ensures
            r.is_default(),
    {
        TelemetryConfig { log_level: String::from_str("info"), otlp_endpoint: String::from_str("") }
    }
}

impl Default for Config {
    fn default() -> (r: Self)
        ensures
            r.server.is_default(),
            r.storage.is_default(),
            r.catalog.is_default(),
            r.ingest.flush_interval_ms == 100 && r.ingest.flush_max_bytes == 67_108_864
                && r.ingest.writer_threads == 4,
            r.compact.trigger_wal_count == 32 && r.compact.trigger_wal_bytes == 268_435_456
                && r.compact.trigger_age_seconds == 300 && r.compact.target_segment_bytes
                == 536_870_912 && r.compact.worker_threads == 2,
            r.query.max_concurrent_queries == 256 && r.query.result_cache_max_bytes
                == 1_073_741_824 && r.query.tenant_qps_limit == 100 && r.query.tenant_burst == 1000,
            r.fts.is_default(),
            r.bitmap_index.is_default(),
            r.jsonpath_index.sample_size == 10_000 && r.jsonpath_index.min_presence_pct
                == 0x3ff0_0000_0000_0000 && r.jsonpath_index.max_paths_per_segment == 256,
            r.vector.enabled && r.vector.dimensions == 1536 && r.vector.hnsw_m == 16
                && r.vector.hnsw_ef_construction == 200 && r.vector.hnsw_ef_search == 50
                && !r.vector.quantize,
            r.telemetry.is_default(),
            r.auth.is_default(),
            r.crypto.is_default(),
            config_fault(r) is None,
    {
        let r = Config {
            server: ServerConfig::default(),
            storage: StorageConfig::default(),
            catalog: CatalogConfig::default(),
            ingest: IngestConfig::default(),
            compact: CompactConfig::default(),
            query: QueryConfig::default(),
            fts: FtsConfig::default(),
            bitmap_index: BitmapIndexConfig::default(),
            jsonpath_index: JsonPathIndexConfig::default(),
            vector: VectorConfig::default(),
            telemetry: TelemetryConfig::default(),
            auth: AuthConfig::default(),
            crypto: CryptoConfig::default(),
        };
        proof {
            reveal_strlit("sqlite");
            reveal_strlit("postgres");
            assert("sqlite"@.len() == 6);
            assert("postgres"@.len() == 8);
        }
        r
    }
}

/// The values of the environment variables that override settings, where they are set:
/// `ZEN_LISTEN`, `ZEN_HTTP_LISTEN`, `ZEN_STORAGE_BACKEND`, `ZEN_FS_ROOT`,
/// `ZEN_CATALOG_BACKEND`, `ZEN_SQLITE_PATH`, `ZEN_POSTGRES_URL` and `ZEN_LOG`.
pub struct EnvOverrides {
    pub listen: Option<String>,
    pub http_listen: Option<String>,
    pub storage_backend: Option<String>,
    pub fs_root: Option<String>,
    pub catalog_backend: Option<String>,
    pub sqlite_path: Option<String>,
    pub postgres_url: Option<String>,
    pub log_level: Option<String>,
}

/// The override where it is set, else the setting.
pub open spec fn overridden(setting: String, over: Option<String>) -> String {
    match over {
        Some(v) => v,
        None => setting,
    }
}

/// The configuration with the overrides on top.
pub open spec fn with_overrides(c: Config, env: EnvOverrides) -> Config {
    Config {
        server: ServerConfig {
            listen: overridden(c.server.listen, env.listen),
            http_listen: overridden(c.server.http_listen, env.http_listen),
            ..c.server
        },
        storage: StorageConfig {
            backend: overridden(c.storage.backend, env.storage_backend),
            fs_root: overridden(c.storage.fs_root, env.fs_root),
            ..c.storage
        },
        catalog: CatalogConfig {
            backend: overridden(c.catalog.backend, env.catalog_backend),
            sqlite_path: overridden(c.catalog.sqlite_path, env.sqlite_path),
            postgres_url: match env.postgres_url {
                Some(v) => Some(v),
                None => c.catalog.postgres_url,
            },
        },
        telemetry: TelemetryConfig {
            log_level: overridden(c.telemetry.log_level, env.log_level),
            ..c.telemetry
        },
        ..c
    }
}

/// The storage backends.
pub open spec fn is_storage_backend(s: Seq<char>) -> bool {
    s == "fs"@ || s == "s3"@ || s == "gcs"@ || s == "azure"@ || s == "memory"@
}

/// The catalog backends that a configuration may name.
pub open spec fn is_catalog_backend(s: Seq<char>) -> bool {
    s == "sqlite"@ || s == "postgres"@
}

/// What is wrong with a configuration, if anything.
pub open spec fn config_fault(c: Config) -> Option<Seq<char>> {
    if !is_storage_backend(c.storage.backend@) {
        Some("unknown storage backend: "@ + c.storage.backend@)
    } else if !is_catalog_backend(c.catalog.backend@) {
        Some("unknown catalog backend: "@ + c.catalog.backend@)
    } else if c.catalog.backend@ == "postgres"@ && c.catalog.postgres_url is None {
        Some("catalog.backend=postgres requires catalog.postgres_url"@)
    } else if c.ingest.flush_max_bytes == 0 {
        Some("ingest.flush_max_bytes must be > 0"@)
    } else {
        None
    }
}

fn set_if(target: &mut String, over: Option<String>)
    ensures
        *final(target) == overridden(*old(target), over),
{
    match over {
        Some(v) => {
            *target = v;
        },
        None => {},
    }
}

impl Config {
    /// Puts the values of environment variables on top.
    pub fn apply_env_overrides(&mut self, env: EnvOverrides)
        ensures
            *final(self) == with_overrides(*old(self), env),
    {
        set_if(&mut self.server.listen, env.listen);
        set_if(&mut self.server.http_listen, env.http_listen);
        set_if(&mut self.storage.backend, env.storage_backend);
        set_if(&mut self.storage.fs_root, env.fs_root);
        set_if(&mut self.catalog.backend, env.catalog_backend);
        set_if(&mut self.catalog.sqlite_path, env.sqlite_path);
        match env.postgres_url {
            Some(v) => {
                self.catalog.postgres_url = Some(v);
            },
            None => {},
        }
        set_if(&mut self.telemetry.log_level, env.log_level);
    }

    /// Checks that the backends are known and that what they need is there.
    pub fn validate(&self) -> (r: Result<(), ZenError>)
        ensures
            match config_fault(*self) {
                None => r is Ok,
                Some(t) => r matches Err(e) && e@ == ErrorView::Invalid(t),
            },
    {
        let s = self.storage.backend.as_str();
        if !(text_eq(s, "fs") || text_eq(s, "s3") || text_eq(s, "gcs") || text_eq(s, "azure")
            || text_eq(s, "memory")) {
            return Err(ZenError::Invalid(concat2("unknown storage backend: ", s)));
        }
        let c = self.catalog.backend.as_str();
        if !(text_eq(c, "sqlite") || text_eq(c, "postgres")) {
            return Err(ZenError::Invalid(concat2("unknown catalog backend: ", c)));
        }
        if text_eq(c, "postgres") && self.catalog.postgres_url.is_none() {
            return Err(
                ZenError::invalid("catalog.backend=postgres requires catalog.postgres_url"),
            );
        }
        if self.ingest.flush_max_bytes == 0 {
            return Err(ZenError::invalid("ingest.flush_max_bytes must be > 0"));
        }
        Ok(())
    }
}

/// The catalog to open.
pub enum CatalogBackend {
    Postgres(String),
    Mock,
}

/// Which catalog a configuration opens: `postgres`, for which the address is required, or
/// the in-memory `mock`.
pub fn catalog_backend(cfg: &CatalogConfig) -> (r: Result<CatalogBackend, ZenError>)
    ensures
        if cfg.backend@ == "postgres"@ {
            match cfg.postgres_url {
                Some(url) => r matches Ok(CatalogBackend::Postgres(u)) && u@ == url@,
                None => r matches Err(e) && e@ == ErrorView::Catalog(
                    "catalog.postgres_url is required (set ZEN_POSTGRES_URL or catalog.postgres_url in config)"@,
                ),
            }
        } else if cfg.backend@ == "mock"@ {
            r matches Ok(CatalogBackend::Mock)
        } else {
            r matches Err(e) && e@ == ErrorView::Catalog(
                "unknown catalog backend: "@ + cfg.backend@ + " (valid: postgres, mock)"@,
            )
        },
{
    if text_eq(cfg.backend.as_str(), "postgres") {
        match &cfg.postgres_url {
            Some(url) => Ok(CatalogBackend::Postgres(url.clone())),
            None => Err(
                ZenError::catalog(
                    "catalog.postgres_url is required (set ZEN_POSTGRES_URL or catalog.postgres_url in config)",
                ),
            ),
        }
    } else if text_eq(cfg.backend.as_str(), "mock") {
        Ok(CatalogBackend::Mock)
    } else {
        Err(
            ZenError::Catalog(
                concat3(
                    "unknown catalog backend: ",
                    cfg.backend.as_str(),
                    " (valid: postgres, mock)",
                ),
            ),
        )
    }
}

} // verus!
