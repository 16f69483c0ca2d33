[package]
name = "solana_cli"
version = "0.1.0"
edition = "2021"
publish = false

[dependencies]
anyhow = "*"
base64 = "*"
clap = { version = "*", features = ["derive"] }
reqwest = { version = "*", default-features = false, features = ["json"] }
serde = { version = "*", features = ["derive"] }
serde_json = "*"
solana-pubkey = "=4.4.0"
spl-token = "=9.0.0"
tokio = { version = "*", features = ["macros", "rt-multi-thread"] }
