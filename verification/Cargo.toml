[package]
name = "twincatads"
version = "0.1.0"
edition = "2021"
publish = false

[dependencies]
zerocopy = { version = "0.7", features = ["derive"] }
zerocopy-derive = "0.7"
mechutil = "*"
serde = { version = "1", features = ["derive"] }
serde_json = "1"
indexmap = "2"
anyhow = "1"
log = "0.4"
lazy_static = "1"
tokio = { version = "1", features = ["sync", "time", "rt", "macros"] }
