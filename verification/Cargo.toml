[package]
name = "kaleidoscope"
version = "0.1.0"
edition = "2021"
publish = false

[dependencies]
serde_json = "1"
serde = { version = "1", features = ["derive"] }
clap = { version = "4", features = ["derive"] }
console = "*"
miette = { version = "7", features = ["fancy"] }
thiserror = "2"
