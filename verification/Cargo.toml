[package]
name = "acars_router"
version = "0.1.0"
edition = "2021"
publish = false

[dependencies]
serde_json = "=1.0.154"
log = "=0.4.34"
tokio = { version = "=1.54.1", features = ["net", "sync", "rt", "rt-multi-thread", "io-util", "macros", "time"] }
stubborn-io = "=0.3.6"
tmq = "=0.5.0"
futures = "=0.3.34"
