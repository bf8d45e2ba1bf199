[package]
name = "tutorial_generator"
version = "0.1.0"
edition = "2021"
publish = false

[dependencies]
chrono = { version = "0.4", default-features = false, features = ["alloc"] }
clap = { version = "=4.6.7", features = ["derive"] }
git2 = { version = "=0.21.0", default-features = false }
serde = { version = "=1.0.229", features = ["derive"] }
serde_json = "=1.0.154"
