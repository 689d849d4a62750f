[package]
name = "bevy_persistence_database"
version = "0.1.0"
edition = "2021"
publish = false

[dependencies]
base64 = "=0.22.1"
bevy = { version = "=0.18.1", default-features = false, features = ["std", "async_executor"] }
bevy_many_relationships = "=0.3.0"
postcard = { version = "=1.1.3", features = ["use-std"] }
proc-macro-crate = "=3.5.0"
proc-macro2 = "=1.0.107"
quote = "=1.0.47"
rayon = "=1.12.0"
serde = { version = "=1.0.229", features = ["derive"] }
serde_json = "=1.0.154"
syn = { version = "=2.0.119", features = ["full"] }
tokio = { version = "=1.54.1", features = ["rt-multi-thread", "sync", "time"] }
uuid = { version = "=1.29.0", features = ["v4"] }
zstd = "=0.13.4"
