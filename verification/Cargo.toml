[package]
name = "iso8583"
version = "0.1.0"
edition = "2021"
publish = false

[dependencies]
const-hex = "*"
serde = { version = "*", features = ["derive"] }
serde_yml = "*"
