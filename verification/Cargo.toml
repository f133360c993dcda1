[package]
name = "lavendeux_parser"
version = "0.1.0"
edition = "2021"
publish = false

[dependencies]
fpdec = "*"
regex = "1"
thiserror = "1"
serde = { version = "1", features = ["derive"] }
