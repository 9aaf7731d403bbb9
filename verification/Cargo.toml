[package]
name = "vanity"
version = "0.1.0"
edition = "2021"
publish = false

[dependencies]
chrono = "*"
eyre = "*"
git2 = { version = "*", default-features = false }
indicatif = "*"
rayon = "*"
tokio = { version = "*", features = ["rt-multi-thread"] }
