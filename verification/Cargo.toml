[package]
name = "layernotes"
version = "0.1.0"
edition = "2021"
publish = false

[dependencies]
uuid = { version = "1", features = ["v4", "serde"] }
serde = { version = "1", features = ["derive"] }
serde_yaml_ng = "*"
toml = "*"
chrono = { version = "0.4", features = ["serde"] }
anyhow = "1"
log = "0.4"
clap = { version = "4", features = ["derive"] }
inotify = "*"
tokio = { version = "1", features = ["net", "time", "fs", "rt"] }
flexi_logger = "*"
wayland-client = "*"
