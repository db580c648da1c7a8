[package]
name = "ssh_obi"
version = "0.1.2"
edition = "2021"
publish = false

[dependencies]
chrono = { version = "=0.4.45", default-features = false, features = ["clock"] }
ciborium = "0.2"
clap = { version = "=4.6.7", features = ["derive"] }
nix = { version = "=0.31.3", features = ["term", "process", "signal", "fs", "user"] }
serde = { version = "=1.0.229", features = ["derive"] }
