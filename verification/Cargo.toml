[package]
name = "prewarm"
version = "0.1.0"
edition = "2021"
publish = false

[dependencies]
anyhow = "=1.0.104"
clap = { version = "=3.2.25", features = ["derive"] }
indicatif = "=0.18.6"
walkdir = "=2.5.0"
warm-fs = "=0.2.0"
