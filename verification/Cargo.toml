[package]
name = "logroll"
version = "0.1.0"
edition = "2021"
publish = false

[dependencies]
chrono = { version = "0.4", default-features = false, features = ["clock"] }
failure = { version = "0.1", default-features = false, features = ["std"] }
glob = "0.3"
