[package]
name = "debr"
version = "0.1.0"
edition = "2021"
publish = false

[dependencies]
ordermap = "*"
serde = { version = "*", features = ["derive"] }
serde_json = "*"
clap = { version = "*", features = ["derive"] }
colored = "*"
reqwest = { version = "*", default-features = false, features = ["blocking"] }
