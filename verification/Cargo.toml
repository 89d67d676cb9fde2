[package]
name = "htg"
version = "0.1.0"
edition = "2021"
publish = false

[dependencies]
flate2 = "*"
zip = "*"
memmap2 = "*"
serde = { version = "*", features = ["derive"] }
serde_json = "*"
csv = "*"
reqwest = { version = "*", default-features = false, features = ["blocking"] }
