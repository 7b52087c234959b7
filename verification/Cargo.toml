[package]
name = "vault_core"
version = "0.1.0"
edition = "2021"
publish = false

[dependencies]
borsh = "0.10"
chrono = { version = "0.4", features = ["serde"] }
cocoon = "0.4"
passwords = "3"
rand = "0.8"
serde = { version = "1", features = ["derive"] }
serde_json = "1"
snafu = "0.8"
