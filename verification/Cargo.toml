[package]
name = "sapphire-workspace"
version = "0.9.0"
edition = "2021"
publish = false

[dependencies]
anyhow = "1"
chrono = { version = "0.4", features = ["serde"] }
clap = { version = "4", features = ["derive", "env"] }
dirs = "*"
fastembed = { version = "*", default-features = false, features = ["hf-hub", "ort-load-dynamic"] }
git2 = "0.20"
md-5 = "0.10"
notify-debouncer-mini = "*"
rmcp = { version = "*", features = ["server", "transport-io", "macros"] }
rusqlite = { version = "*", features = ["bundled"] }
serde = { version = "1", features = ["derive"] }
serde_json = "1"
sqlite-vec = "0.1"
thiserror = "2"
tokio = { version = "1", features = ["full"] }
toml = "*"
tracing = "0.1"
tracing-subscriber = "0.3"
ureq = { version = "3", features = ["json"] }
uuid = { version = "1", features = ["v7", "serde"] }
walkdir = "2"
