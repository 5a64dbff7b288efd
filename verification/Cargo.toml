[package]
name = "fury_tracer"
version = "0.1.0"
edition = "2021"
publish = false

[dependencies]
bevy_math = "*"
image = { version = "0.25", default-features = false, features = ["png", "jpeg", "exr", "hdr"] }
rand = "0.8"
rayon = "1"
serde = { version = "1", features = ["derive"] }
serde_json = "1"
serde-ply = "*"
smart-default = "0.7"
tracing = "0.1"
tracing-subscriber = "0.3"
void = "1"
walkdir = "2"
