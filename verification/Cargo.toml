[package]
name = "mise"
version = "0.1.0"
edition = "2021"
publish = false

[dependencies]
async-trait = "=0.1.92"
axum = { version = "=0.8.9", features = ["multipart"] }
axum-extra = { version = "=0.12.6", features = ["cookie"] }
cookie = "=0.18.2"
openidconnect = "=4.0.1"
serde_json = "=1.0.154"
tower = "=0.5.3"
tower-http = { version = "=0.6.11", features = ["fs", "timeout"] }
ammonia = "=4.2.4"
anyhow = "=1.0.104"
base64 = "=0.22.1"
bidiff = "=1.0.0"
bipatch = "=1.0.0"
chrono = "=0.4.45"
pulldown-cmark = { version = "=0.13.5", default-features = false, features = ["html"] }
rand = "=0.9.5"
reqwest = { version = "=0.12.28", default-features = false, features = ["rustls-tls"] }
ring = "=0.17.14"
rusqlite = { version = "=0.41.0", features = ["bundled"] }
serde = { version = "=1.0.229", features = ["derive"] }
sha256 = { version = "=1.6.0", default-features = false }
thiserror = "=2.0.21"
tokio = { version = "=1.54.1", features = ["rt-multi-thread", "macros", "sync", "time", "process", "fs", "net", "signal"] }
toml = "=1.1.8"
ulid = { version = "=1.2.1", features = ["serde"] }
zstd = "=0.14.3"

[dev-dependencies]
postcard = { version = "=1.1.3", features = ["alloc"] }
