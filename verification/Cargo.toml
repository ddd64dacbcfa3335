[package]
name = "file_mentions"
version = "0.1.0"
edition = "2021"
publish = false

[dependencies]
anyhow = "1"
fuzzy-matcher = "0.3"
globset = "0.4"
ignore = "0.4"
notify = "6"
serde = { version = "1", features = ["derive"] }
serde_json = "1"
tokio = { version = "1", features = ["macros", "rt-multi-thread", "io-std"] }
tower-lsp = "0.20"
url = "2"
zed_extension_api = "*"
