[package]
name = "lbp_archive_dl"
version = "0.1.0"
edition = "2021"
publish = false

[dependencies]
anyhow = "1"
bson = "2"
chrono = { version = "0.4", features = ["serde"] }
clap = { version = "4", features = ["derive"] }
dashmap = "6"
hex = "=0.4.3"
rusqlite = { version = "0.32", features = ["bundled"] }
serde = { version = "1", features = ["derive"] }
serde_json = "1"
sha1 = "=0.10.7"
tokio = { version = "1", features = ["rt-multi-thread", "sync", "macros"] }
zip = "=2.4.2"
