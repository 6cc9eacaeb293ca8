[package]
name = "storage_bench"
version = "0.1.0"
edition = "2021"
publish = false

[dependencies]
anyhow = "1"
arrow-array = "58"
arrow-schema = "58"
arrow-select = "58"
clap = { version = "4", default-features = false, features = ["std", "help", "usage", "error-context", "derive"] }
csv = "1"
flate2 = "1"
futures = { version = "0.3", default-features = false, features = ["std"] }
hdrhistogram = { version = "7", default-features = false }
lance-arrow = "7.1"
lance-file = "7.1"
parquet = "58.3"
plotters = { version = "0.3", default-features = false, features = ["svg_backend", "all_series", "all_elements"] }
rand = "0.9"
serde = { version = "1", features = ["derive"] }
serde_json = "1"
tar = "0.4"
tokio = { version = "1", features = ["rt-multi-thread", "macros", "fs", "sync"] }
tracing-subscriber = { version = "0.3", features = ["env-filter"] }
walkdir = "2"

[dev-dependencies]
tempfile = "3"
