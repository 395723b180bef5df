[package]
name = "meta-feeder-sdk"
version = "0.1.0"
edition = "2021"
publish = false

[dependencies]
redb = "2"
serde_json = "1"
tokio = { version = "1", features = ["macros", "rt", "sync", "time"] }

[dev-dependencies]
tempfile = "3"
