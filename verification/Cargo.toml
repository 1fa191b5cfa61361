[package]
name = "sylphie"
version = "0.1.0"
edition = "2021"
publish = false

[dependencies]
arc-swap = "=1.9.3"
blake3 = "=1.8.7"
darling = "=0.24.1"
fs2 = "=0.4.3"
fxhash = "=0.2.1"
git2 = { version = "=0.21.0", default-features = false }
lazy_static = "=1.5.1"
proc-macro2 = "=1.0.107"
quote = "=1.0.47"
serde_bytes = "=0.11.19"
syn = { version = "=3.0.9", features = ["full"] }
tokio = { version = "=1.54.1", features = ["rt-multi-thread"] }
