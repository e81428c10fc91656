[package]
name = "rusterix"
version = "0.1.0"
edition = "2021"
publish = false

[dependencies]
uuid = { version = "1", features = ["v4", "serde"] }
rand = "0.9"
serde = { version = "1", features = ["derive"] }
vek = "*"
toml = "*"
earcutr = "*"
pathfinding = "*"
ordered-float = "*"
indexmap = "*"
crossbeam-channel = "*"
bincode = "1"
rustc-hash = "*"
