[package]
name = "commit_backend"
version = "0.1.0"
edition = "2021"
publish = false

[dependencies]
async-trait = "0.1"
chrono = { version = "0.4", default-features = false, features = ["clock", "std"] }
clap = { version = "4", features = ["derive"] }
digest = "0.10"
hex = "0.4"
itertools = "0.12"
thiserror = "1"
