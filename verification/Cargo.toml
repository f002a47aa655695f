[package]
name = "panoptes"
version = "0.1.0"
edition = "2021"
publish = false

[dependencies]
chrono = "*"
clap = { version = "*", features = ["derive"] }
colored = "*"
git2 = "*"
rusqlite = { version = "*", features = ["bundled"] }
