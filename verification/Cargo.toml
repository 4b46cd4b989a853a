[package]
name = "dino"
version = "0.1.0"
edition = "2021"
publish = false

[dependencies]
arc-swap = "=1.9.2"
blake3 = "=1.8.7"
rquickjs = "=0.14.0"
axum = "=0.8.9"
tokio = { version = "=1.53.2", features = ["full"] }
serde = { version = "=1.0.229", features = ["derive"] }
serde_yml = "=0.0.13"
clap = { version = "=4.6.7", features = ["derive"] }
glob = "=0.3.4"
notify = "=8.2.0"
notify-debouncer-mini = "=0.7.0"
tower-http = { version = "*", features = ["trace", "compression-gzip", "compression-br", "compression-deflate"] }
tracing = "*"
tracing-subscriber = "*"
