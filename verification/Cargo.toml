[package]
name = "disk_spinner"
version = "0.3.0"
edition = "2021"
publish = false

[dependencies]
shishua = "*"
rand = "0.9"
clap = { version = "4", features = ["derive"] }
anyhow = "1"
tracing = "0.1"
tracing-subscriber = "0.3"
rayon = "1"
