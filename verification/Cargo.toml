[package]
name = "proxima_centauri"
version = "0.1.0"
edition = "2021"
publish = false

[dependencies]
p384 = "0.13"
tokio = { version = "1", features = ["full"] }
axum = "0.6"
tracing = "0.1"
tracing-subscriber = "0.3"

[dev-dependencies]
rand_core = { version = "0.6", features = ["getrandom"] }
