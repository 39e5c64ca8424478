[package]
name = "workspace_files"
version = "0.1.0"
edition = "2021"
publish = false

[dependencies]
url = "2"
ropey = "1"
which = "*"
walkdir = "2"
notify = "*"
tokio = { version = "1", features = ["rt-multi-thread", "sync", "fs", "macros"] }
async-process = "2"
serde_json = "1"
axum = "0.6"
hyper = "0.14"
tracing = "0.1"
