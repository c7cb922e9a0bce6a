[package]
name = "vcs-status-daemon"
version = "0.0.8"
edition = "2021"
publish = false

[dependencies]
anyhow = "1"
bytecount = "=0.6.9"
chrono = "0.4"
clap = { version = "4", features = ["derive"] }
dirs = "=6.0.0"
futures = "0.3"
git2 = { version = "=0.20.4", default-features = false }
ignore = "=0.4.34"
jj-lib = "=0.39.0"
kstring = "=2.0.2"
notify = "=8.2.1"
serde = { version = "1", features = ["derive"] }
serde_json = "1"
tokio = { version = "1", features = ["full"] }
toml = "=1.1.8"
tracing = "0.1"

[dev-dependencies]
tempfile = "3"
