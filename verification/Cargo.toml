[package]
name = "nix_analyzer"
version = "0.1.0"
edition = "2021"
publish = false

[dependencies]
rnix = "*"
rowan = "*"
lsp-server = "*"
lsp-types = "*"
serde = { version = "*", features = ["derive"] }
serde_json = "*"
crossbeam = "*"
lru = "*"
anyhow = "*"
