[package]
name = "proxy_health_monitor"
version = "0.1.0"
edition = "2021"
publish = false

[dependencies]
serde = { version = "=1.0.229", features = ["derive"] }
toml = "=1.1.6"
log = "=0.4.34"
env_logger = "=0.11.11"
hostname = "=0.4.2"
prometheus = "=0.14.0"
prometheus-reqwest-remote-write = "=0.5.0"
reqwest = { version = "=0.13.5", default-features = false, features = ["json"] }
tokio = { version = "=1.53.2", features = ["rt-multi-thread", "macros", "time"] }
warp = { version = "=0.4.3", features = ["server"] }
