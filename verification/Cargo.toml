[package]
name = "trackstore"
version = "0.1.0"
edition = "2021"
publish = false

[dependencies]
md5 = "=0.8.1"
chrono = "=0.4.45"
splines = "=5.0.0"
serde = { version = "=1.0.229", features = ["derive"] }
toml = "=1.1.8"
log = { version = "=0.4.34", features = ["serde"] }
simplelog = "=0.12.2"
walkdir = "=2.5.0"
tokio = { version = "=1.54.1", features = ["sync"] }
rocket = { version = "=0.5.2", features = ["json"] }
avro-rs = "=0.13.0"
lazy_static = "=1.5.1"
