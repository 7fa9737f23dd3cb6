[package]
name = "analytic_engine"
version = "0.1.0"
edition = "2021"
publish = false

[dependencies]
clap = { version = "4", features = ["derive"] }
log = "0.4"
rand = "0.8"
serde = { version = "1", features = ["derive"] }
sqlparser = "0.30"
tokio = { version = "1", features = ["rt-multi-thread", "sync", "fs", "time", "macros"] }
toml = "0.8"
