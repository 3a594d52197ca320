[package]
name = "ord_export"
version = "0.1.0"
edition = "2021"
publish = false

[dependencies]
sha3 = "*"
rustc-serialize = "*"
chrono = "*"
indicatif = "*"

[dev-dependencies]
csv = "*"
