[package]
name = "wasmcord"
version = "0.1.0"
edition = "2021"
publish = false

[dependencies]
serde_json = { version = "=1.0.154", features = ["raw_value"] }
serde = { version = "=1.0.229", features = ["derive"] }
anyhow = "=1.0.104"
tokio = { version = "=1.54.1", features = ["full"] }
tokio-stream = "=0.1.19"
tracing = "=0.1.44"
tracing-subscriber = { version = "=0.3.23", features = ["env-filter", "fmt"] }
twilight-gateway = "=0.16.0"
twilight-http = "=0.16.0"
twilight-model = "=0.16.0"
sqlx = { version = "=0.8.6", default-features = false, features = ["sqlite", "runtime-tokio"] }
ureq = "=3.5.1"
http = "=1.5.0"
toml = "*"
wasmtime = "=46.0.3"
wasmtime-wasi = "=46.0.3"
