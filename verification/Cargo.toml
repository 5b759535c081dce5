[package]
name = "cyancia"
version = "0.1.0"
edition = "2021"
publish = false

[dependencies]
dashmap = "*"
uuid = { version = "*", features = ["v4"] }
xxhash-rust = { version = "*", features = ["xxh3"] }
wgpu = "*"
image = { version = "*", default-features = false, features = ["png", "jpeg"] }
half = "*"
bytemuck = "*"
parking_lot = "*"
serde = { version = "*", features = ["derive"] }
toml = "*"
