[package]
name = "vertex_rejoin"
version = "0.1.0"
edition = "2021"
publish = false

[dependencies]
tashi-vertex = "0.13.0"
tokio = { version = "1", features = ["full"] }
tracing-subscriber = { version = "0.3", features = ["env-filter"] }
