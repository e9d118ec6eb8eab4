[package]
name = "geonative"
version = "0.1.0"
edition = "2021"
publish = false

[dependencies]
serde_json = "1"
serde = { version = "1", features = ["derive"] }
clap = { version = "4", features = ["derive"] }
thiserror = "2"
memmap2 = "0.9"
geo-types = "0.7"
tokio = { version = "1", features = ["rt", "rt-multi-thread", "sync"] }
object_store = { version = "*", default-features = false }
futures = "0.3"
