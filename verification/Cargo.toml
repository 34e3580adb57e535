[package]
name = "ls-server"
version = "0.1.0"
edition = "2021"
publish = false

[dependencies]
dissimilar = "=1.0.11"
line-index = "=0.1.2"
log = "=0.4.35"
lsp-types = "=0.97.0"
serde = { version = "=1.0.229", features = ["derive"] }
serde_json = { version = "=1.0.154", features = ["preserve_order"] }
