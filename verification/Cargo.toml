[package]
name = "bullboard"
version = "0.1.0"
edition = "2021"
publish = false

[dependencies]
rusqlite = { version = "*", features = ["bundled"] }
chrono = "*"
clap = "*"
prettytable-rs = "*"

[dev-dependencies]
tempfile = "*"
