[package]
name = "language_server"
version = "0.1.0"
edition = "2021"
publish = false

[dependencies]
lsp-types = "0.94"
lsp-server = "0.7"
serde_json = "1"
tracing = "0.1"
itertools = "0.10"
