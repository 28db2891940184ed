[package]
name = "pumpkin"
version = "0.1.0"
edition = "2021"
publish = false

[dependencies]
cesu8 = "1"
flate2 = "1"
heck = "0.5"
bytes = "1"
serde = { version = "1", features = ["derive"] }
serde_json = "1"
toml = "0.8"
thiserror = "2"
