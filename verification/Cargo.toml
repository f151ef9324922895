[package]
name = "pathway_connectors"
version = "0.1.0"
edition = "2021"
publish = false

[dependencies]
bincode = "=1.3.3"
bytes = "=1.12.1"
cfg-if = "=1.0.5"
chrono = { version = "=0.4.38", default-features = false, features = ["std", "clock"] }
csv = { version = "=1.4.0", default-features = false }
deltalake = { version = "0.17", default-features = false }
elasticsearch = { version = "=8.5.0-alpha.1", default-features = false }
glob = "=0.3.4"
inotify = "=0.10.2"
libc = "=0.2.191"
log = "=0.4.34"
nix = { version = "=0.29.0", features = ["fs", "user"] }
ordered-float = "=4.6.0"
pipe = "=0.4.0"
postgres = { version = "=0.19.14", features = ["with-chrono-0_4", "with-serde_json-1"] }
pyo3 = { version = "=0.20.3", default-features = false, features = ["abi3-py310"] }
rand = "=0.8.8"
rdkafka = { version = "=0.36.2", default-features = false }
rusqlite = { version = "=0.31.0", features = ["bundled"] }
rust-s3 = { version = "=0.33.0", default-features = false, features = ["sync-rustls-tls"] }
serde = { version = "=1.0.229", features = ["derive"] }
serde_json = { version = "=1.0.154", default-features = false, features = ["std"] }
tempfile = "=3.27.0"
thiserror = "=1.0.69"
tokio = { version = "=1.54.1", default-features = false, features = ["rt", "rt-multi-thread"] }
xxhash-rust = { version = "=0.8.19", features = ["xxh3"] }
