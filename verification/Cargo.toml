[package]
name = "robocopy_csv"
version = "0.1.0"
edition = "2021"

[dependencies]
anyhow = "*"
chrono = "*"
clap = { version = "*", features = ["derive"] }
encoding_rs = "*"
