[package]
name = "zkevm_benchmark"
version = "0.1.0"
edition = "2021"
publish = false

[dependencies]
serde = { version = "=1.0.229", features = ["derive"] }
serde_json = { version = "=1.0.154", features = ["float_roundtrip"] }
thiserror = "=2.0.21"
rayon = "=1.12.0"
walkdir = "=2.5.0"
anyhow = "=1.0.104"
clap = { version = "=4.6.7", features = ["derive"] }
toml_edit = "=0.22.27"
dotenv = "=0.15.0"
alloy-genesis = "=1.8.3"

[dev-dependencies]
tempfile = "3"
