[package]
name = "origin_trial_token"
version = "0.1.0"
edition = "2021"
publish = false

[dependencies]
pem = "1"
ring = "0.16"
base64 = "0.13"
chrono = "0.4"
clap = { version = "3", features = ["derive"] }
