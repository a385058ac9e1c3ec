[package]
name = "pdf_debugger"
version = "0.1.0"
edition = "2021"
publish = false

[dependencies]
flate2 = "1"
memchr = "2"
regex = "1"
memmap2 = "0.9"
serde = { version = "1", features = ["derive"] }
serde_json = "1"
clap = { version = "4", features = ["derive"] }
thiserror = "1"
