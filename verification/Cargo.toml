[package]
name = "autoguard"
version = "0.1.0"
edition = "2021"
publish = false

[dependencies]
serde_json = "*"
dirs = "*"
serde = { version = "*", features = ["derive"] }
confy = "*"
reqwest = { version = "*", default-features = false, features = ["blocking"] }
