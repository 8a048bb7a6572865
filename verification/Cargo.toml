[package]
name = "systemd_lsp"
version = "0.1.0"
edition = "2021"
publish = false

[dependencies]
dashmap = "*"
tower-lsp-server = "*"
tokio = { version = "*", features = ["io-std", "rt-multi-thread", "macros"] }
log = "*"
env_logger = "*"
atty = "0.2"
