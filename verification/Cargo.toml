[package]
name = "bibliotecaria"
version = "0.1.0"
edition = "2021"
publish = false

[dependencies]
serde = { version = "1", features = ["derive"] }
serde_json = "1"
anyhow = "1"
keyring = "3"
tokio = { version = "1", features = ["macros", "rt-multi-thread", "io-std"] }
rmcp = { version = "*", features = ["server", "macros", "transport-io"] }
