[package]
name = "mcp_language_server"
version = "0.1.0"
edition = "2021"
publish = false

[dependencies]
ignore = "0.4"
serde = { version = "1", features = ["derive"] }
serde_json = "1"
lsp-types = "*"
anyhow = "1"
log = "0.4"
env_logger = "*"
clap = { version = "4", features = ["derive"] }
tokio = { version = "1", features = ["full"] }
notify = "*"
path-absolutize = "*"
