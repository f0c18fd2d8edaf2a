[package]
name = "databend_query"
version = "0.1.0"
edition = "2021"
publish = false

[dependencies]
parquet = { version = "47", default-features = false, features = ["arrow", "async"] }
opensrv-mysql = "*"
opendal = { version = "0.41", default-features = false }
futures-util = "0.3"
async-trait = "0.1"
async-backtrace = "0.2"
tracing = "0.1"
tokio = { version = "1", features = ["io-util"] }
