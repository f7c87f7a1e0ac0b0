[package]
name = "forge3d"
version = "0.1.0"
edition = "2021"
publish = false

[dependencies]
indexmap = "2"
ahash = "0.8"
rayon = "1"
parking_lot = "0.12"
serde = { version = "1", features = ["derive"] }
thiserror = "*"
tracing = "0.1"
bitflags = { version = "2", features = ["serde"] }
