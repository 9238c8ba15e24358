[package]
name = "triage"
version = "0.1.0"
edition = "2021"
publish = false

[dependencies]
anyhow = "1"
byte-unit = "5"
clap = { version = "4", features = ["derive"] }
crossterm = "*"
env_logger = "*"
futures = "0.3"
log = "0.4"
rayon = "1"
serde = { version = "1", features = ["derive"] }
serde_yaml = "0.9"
sysinfo = "*"
tokio = { version = "1", features = ["macros", "rt-multi-thread", "fs", "sync", "time"] }
