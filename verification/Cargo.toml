[package]
name = "chat_program"
version = "0.1.0"
edition = "2021"
publish = false

[dependencies]
clap = { version = "=3.2.25", features = ["derive"] }
solana-program = "=1.18.26"
solana-sdk = "=1.18.26"
