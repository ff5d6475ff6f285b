[package]
name = "core_sim"
version = "0.1.0"
edition = "2021"
publish = false

[dependencies]
rand = "0.8"
rand_pcg = "0.3"
serde = { version = "1", features = ["derive"] }
ron = "*"
serde_json = "1"
bevy_ecs = "*"
tracing = "0.1"
