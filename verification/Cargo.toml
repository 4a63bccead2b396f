[package]
name = "minigit"
version = "0.1.0"
edition = "2021"
publish = false

[dependencies]
anyhow = "*"
chrono = "*"
clap = { version = "*", features = ["derive"] }
flate2 = "*"
hex = "*"
reqwest = { version = "*", default-features = false, features = ["blocking"] }
sha1 = "*"
