[package]
name = "echo_mux"
version = "0.1.0"
edition = "2021"
publish = false

[dependencies]
axum = "*"
tokio = { version = "*", features = ["rt-multi-thread", "macros", "net"] }

[dev-dependencies]
serde_json = "*"
