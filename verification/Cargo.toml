[package]
name = "raytracer"
version = "0.1.0"
edition = "2021"
publish = false

[dependencies]
bevy_math = "*"
serde = { version = "1", features = ["derive"] }
serde_json = "1"
smart-default = "*"
tracing = "0.1"
tracing-subscriber = "0.3"
void = "1"
