[package]
name = "command_executer"
version = "0.1.0"
edition = "2021"
publish = false

[dependencies]
clap = { version = "4", features = ["derive"] }
futures = "0.3"
serde = "1"
serde_derive = "1"
tokio = { version = "1", features = ["rt-multi-thread", "macros"] }
toml = "*"
