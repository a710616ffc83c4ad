[package]
name = "rust_code_mcp"
version = "0.1.0"
edition = "2021"
publish = false

[dependencies]
anyhow = "1"
async-trait = "0.1"
bincode = "=1.3.3"
cargo_metadata = "0.23"
directories = "6"
fs2 = "0.4"
num_cpus = "1"
ra_ap_hir = ">=0.0.310, <0.0.332"
ra_ap_ide = ">=0.0.310, <0.0.332"
ra_ap_ide_db = ">=0.0.310, <0.0.332"
ra_ap_load-cargo = ">=0.0.310, <0.0.332"
ra_ap_project_model = ">=0.0.310, <0.0.332"
ra_ap_vfs = ">=0.0.310, <0.0.332"
rmcp = { version = "=3.8.0", features = ["server", "transport-io", "macros"] }
serde = { version = "1", features = ["derive"] }
serde_json = "=1.0.154"
sha2 = "=0.10.9"
sled = "=0.34.7"
thiserror = "2"
tokio = { version = "1", features = ["full"] }
tracing = "0.1"
tracing-subscriber = { version = "0.3", features = ["env-filter"] }
walkdir = "2"

[dev-dependencies]
tempfile = "3"
