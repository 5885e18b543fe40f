[package]
name = "log_analyzer"
version = "0.1.0"
edition = "2021"
publish = false

[dependencies]
anyhow = "1"
chrono = "0.4"
clap = { version = "4", features = ["derive"] }
plotters = "0.3"
serde = { version = "1", features = ["derive"] }
serde_json = "1"
walkdir = "2"
