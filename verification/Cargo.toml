[package]
name = "oneinstall"
version = "0.1.0"
edition = "2021"
publish = false

[dependencies]
chrono = { version = "=0.4.45", features = ["serde"] }
clap = { version = "=4.6.7", features = ["derive"] }
comfy-table = "=8.0.1"
dirs = "=7.0.0"
hex = "=0.4.3"
libc = "=0.2.190"
serde = { version = "=1.0.229", features = ["derive"] }
sha2 = "=0.10.9"
tokio = { version = "=1.53.2", features = ["rt-multi-thread", "macros"] }
toml = "=1.1.7"
uuid = { version = "=1.27.0", features = ["v4"] }
