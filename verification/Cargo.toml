[package]
name = "mummu"
version = "0.1.0"
edition = "2021"
publish = false

[dependencies]
half = "2.7.1"
inferno = { version = "0.12.8", default-features = false }
rayon = "1.12.0"
serde = { version = "1", features = ["derive"] }
serde_json = "1"
burn = { version = "0.22.1", default-features = false }
