[package]
name = "unwrapped"
version = "0.1.0"
edition = "2021"
publish = false

[dependencies]
base64 = "0.22"
serde = { version = "1", features = ["derive"] }
surf = { version = "2", default-features = false, features = ["h1-client-rustls"] }
tokio = { version = "1", features = ["rt-multi-thread", "macros"] }
axum = "0.7"
