[package]
name = "zenithdb"
version = "0.1.0"
edition = "2021"
publish = false

[dependencies]
lz4_flex = "=0.11.6"
zstd = "=0.13.4"
fsst-rs = "=0.7.0"
xxhash-rust = { version = "=0.8.19", features = ["xxh3"] }
crc32fast = "=1.5.4"
aes-gcm = "=0.10.3"
hmac = "=0.12.1"
sha2 = "=0.10.9"
base64 = "=0.22.1"
subtle = "=2.6.1"
zeroize = "=1.9.1"
ulid = "=1.2.1"
uuid = { version = "=1.29.0", features = ["v4"] }
url = "=2.5.8"
moka = { version = "=0.12.16", features = ["sync"] }
jsonwebtoken = "=9.3.1"
roaring = "=0.10.12"
arrow-array = "=53.4.1"
serde = { version = "=1.0.229", features = ["derive"] }
serde_json = "=1.0.154"
toml = "=0.8.23"
chrono = "=0.4.39"
tokio = { version = "=1.54.1", features = ["macros", "rt-multi-thread", "signal", "sync", "time"] }
reqwest = { version = "=0.12.28", default-features = false, features = ["http2", "json", "rustls-tls"] }
clap = { version = "=4.6.7", features = ["derive"] }
tantivy = "=0.22.1"
tdigest = "=0.2.3"
sqlx = { version = "=0.8.6", default-features = false, features = ["postgres", "sqlite", "runtime-tokio", "chrono", "uuid"] }
rand = "=0.8.8"
rand_distr = "=0.4.3"
