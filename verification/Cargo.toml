[package]
name = "rust_samples"
version = "0.1.0"
edition = "2021"
publish = false

[dependencies]
anyhow = "=1.0.104"
core_affinity = "0.8"
futures-util = "=0.3.34"
h2 = "=0.4.20"
lazy_static = "1"
prost = "=0.13.5"
prost-types = "=0.13.5"
rust-embed = { version = "=8.13.0", features = ["interpolate-folder-path"] }
tokio = { version = "=1.54.1", features = ["full"] }
tokio-stream = { version = "=0.1.19", features = ["net"] }
tonic = "=0.12.3"
tonic-reflection = "=0.12.3"
