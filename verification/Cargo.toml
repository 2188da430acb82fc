[package]
name = "escpos_db"
version = "0.1.0"
edition = "2021"
publish = false

[dependencies]
heck = "*"
phf_codegen = "*"
serde = { version = "1", features = ["derive"] }
serde_json = "1"
