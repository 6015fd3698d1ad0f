[package]
name = "wavetk"
version = "0.1.0"
edition = "2021"
publish = false

[dependencies]
serde = { version = "1", features = ["derive"] }
serde_json = "1"
fst-sys = "*"

[dev-dependencies]
nom = { version = "5", default-features = false, features = ["std"] }
