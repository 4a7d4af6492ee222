[package]
name = "sparring"
version = "0.1.0"
edition = "2021"
publish = false

[dependencies]
chrono = "=0.4.45"
regex = "=1.13.1"
serde = { version = "=1.0.229", features = ["derive"] }
serde_json = "=1.0.154"
good_lp = { version = "=1.15.3", default-features = false, features = ["microlp"] }
skillratings = "=0.29.2"

[dev-dependencies]
chumsky = "*"
