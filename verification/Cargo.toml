[package]
name = "crafting"
version = "0.1.0"
edition = "2021"
publish = false

[dependencies]
bincode = "=1.3.3"
lzma-rs = "=0.3.0"
seed = "=0.9.2"
serde = { version = "=1.0.229", features = ["derive"] }
serde_yaml = "=0.8.26"
smallvec = { version = "=1.16.4", features = ["serde"] }
web-sys = { version = "0.3", features = ["RequestCache"] }
xz2 = "=0.1.7"
