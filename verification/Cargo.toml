[package]
name = "libkicaddy"
version = "0.1.0"
edition = "2021"
publish = false

[dependencies]
serde = { version = "1", features = ["derive"] }
serde_json = "1"
clap = { version = "4", features = ["derive"] }
dirs = "*"
uuid = { version = "1", features = ["v4"] }
tantivy = "*"
