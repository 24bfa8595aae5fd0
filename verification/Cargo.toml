[package]
name = "rome"
version = "0.1.0"
edition = "2021"
publish = false

[dependencies]
anyhow = "1"
clap = { version = "4", features = ["derive"] }
indicatif = "0.17"
rusb = "0.9"
serialport = { version = "4", default-features = false }
symphonia = { version = "0.5", features = ["all"] }
