[package]
name = "teamwork"
version = "0.1.0"
edition = "2021"
publish = false

[dependencies]
chrono = "0.4"
serde = { version = "1", features = ["derive"] }
serde_json = "1"
reqwest = { version = "0.12", features = ["blocking", "json"] }
dirs = "*"
structopt = "0.3"
dialoguer = "*"
prettytable-rs = "*"
