[package]
name = "procsentinel"
version = "0.1.0"
edition = "2021"
publish = false

[dependencies]
dirs = "5"
serde = { version = "1", features = ["derive"] }
toml = "0.8"
chrono = "0.4"
libc = "0.2"
regex = "1"
clap = { version = "4", features = ["derive"] }
tokio = { version = "1", features = ["full"] }
axum = "0.7"
reqwest = { version = "0.11", default-features = false, features = ["json"] }
ratatui = "0.24"
crossterm = "0.27"
sysinfo = "0.29"
procfs = "0.16"
rhai = "1"
hostname = "0.3"
