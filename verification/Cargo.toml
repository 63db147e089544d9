[package]
name = "querier"
version = "0.1.0"
edition = "2021"
publish = false

[dependencies]
futures = "0.3"
metrics = "0.24"
promql-parser = "=0.4.3"
serde = { version = "1", features = ["derive"] }
serde_json = "1"
tokio = { version = "1", features = ["macros", "rt", "sync", "time"] }
warp = "0.3"
