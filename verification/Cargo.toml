[package]
name = "backup_catalog"
version = "0.1.0"
edition = "2021"
publish = false

[dependencies]
heed = "0.10"
num_enum = "0.5"
os_str_bytes = "3"
pin-project-lite = "0.2"
rusqlite = "0.24"
serde = { version = "1", features = ["derive"] }
serde_json = "1"
snafu = "0.6"
static_assertions = "1"
time = "0.2"
tokio = { version = "1", features = ["io-util"] }
walkdir = "2"
