[package]
name = "gource"
version = "0.1.0"
edition = "2021"
publish = false

[dependencies]
blake3 = "1"
bytemuck = { version = "1", features = ["derive"] }
cap-std = "*"
rayon = "1"
tempfile = "3"
thiserror = "2"
wgpu = { version = "*", default-features = false, features = ["std", "wgsl"] }
