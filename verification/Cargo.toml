[package]
name = "oriel"
version = "0.1.0"
edition = "2021"
publish = false

[dependencies]
sha2 = "0.10"
serde = { version = "1", features = ["derive"] }
serde_json = "1"
tempfile = "3"
tokio = { version = "1", features = ["rt-multi-thread", "macros", "io-std"] }
rmcp = { version = "*", features = ["server", "transport-io", "macros"] }
