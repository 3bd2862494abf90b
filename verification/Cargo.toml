[package]
name = "warden_batches"
version = "0.1.0"
edition = "2021"
publish = false

[dependencies]
clap = { version = "*", features = ["derive"] }
serde = { version = "*", features = ["derive"] }
serde_json = "*"
good_lp = { version = "*", default-features = false, features = ["microlp"] }
