[package]
name = "wordle_finder"
version = "0.1.0"
edition = "2021"
publish = false

[dependencies]
clap = { version = "*", features = ["cargo"] }
serde = { version = "*", features = ["derive"] }
serde_json = "*"
