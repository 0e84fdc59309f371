[package]
name = "colflow"
version = "0.1.0"
edition = "2021"
publish = false

[dependencies]
arrow = "=60.0.0"
parquet = { version = "=60.0.0", features = ["arrow", "snap", "brotli", "flate2", "lz4", "zstd"] }
bytes = "=1.12.1"
num_cpus = "=1.17.0"
tokio = { version = "=1.53.2", features = ["full"] }
object_store = { version = "=0.14.2", features = ["aws", "azure"] }
url = "=2.5.8"
clap = { version = "=4.6.7", features = ["derive"] }
anyhow = "=1.0.104"
futures = "=0.3.34"
serde = { version = "=1.0.229", features = ["derive"] }
serde_json = "=1.0.151"
serde_yaml = "=0.9.34"
libloading = "=0.9.0"
once_cell = "=1.21.4"
parking_lot = "=0.12.5"
dotenv = "=0.15.0"
