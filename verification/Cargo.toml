[package]
name = "perfweave"
version = "0.1.0"
edition = "2021"
publish = false

[dependencies]
ahash = "0.8"
anyhow = "1"
arc-swap = "1"
arrow = { version = "53", default-features = false, features = ["ipc"] }
async-graphql = "7"
async-graphql-axum = "7"
async-trait = "0.1"
axum = { version = "0.8", features = ["multipart"] }
bytes = "1"
clap = { version = "4", features = ["derive", "env"] }
clickhouse = "0.13"
crossbeam-channel = "0.5"
futures = "0.3"
nvml-wrapper = "0.10"
parking_lot = "0.12"
prost = "0.13"
rand = { version = "0.8", features = ["small_rng"] }
rand_distr = "0.4"
serde = { version = "1", features = ["derive"] }
serde_json = "1"
tokio = { version = "1", features = ["full"] }
tokio-stream = { version = "0.1", features = ["sync"] }
tonic = "0.12"
tower-http = { version = "0.6", features = ["cors", "trace", "fs"] }
tracing = "0.1"
tracing-subscriber = { version = "0.3", features = ["env-filter", "json"] }
xxhash-rust = { version = "0.8", features = ["xxh3"] }
