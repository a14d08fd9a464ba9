[package]
name = "mcpg_plugin"
version = "0.1.0"
edition = "2021"
publish = false

[dependencies]
anyhow = "=1.0.104"
clap = { version = "=4.6.7", features = ["derive"] }
ed25519-dalek = "=2.2.0"
hex = "=0.4.3"
sha2 = "=0.10.9"
serde_json = "=1.0.154"
serde_yaml = "=0.9.34"
tempfile = "=3.27.0"
tokio = { version = "=1.54.1", features = ["rt"] }

[dev-dependencies]
base64 = "=0.22.1"
