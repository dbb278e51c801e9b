[package]
name = "council_core"
version = "0.1.0"
edition = "2021"
publish = false

[dependencies]
reqwest = { version = "0.12", default-features = false, features = ["json", "stream"] }
serde = { version = "1", features = ["derive"] }
serde_json = "1"
thiserror = "*"
tokio = { version = "1", features = ["rt-multi-thread", "time", "macros"] }
futures-util = "0.3"
async-trait = "0.1"
once_cell = "1"
uniffi = "*"
