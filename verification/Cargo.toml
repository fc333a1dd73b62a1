[package]
name = "cairo_codec"
version = "0.1.0"
edition = "2021"
publish = false

[dependencies]
bincode = "=2.0.1"
cairo-lang-compiler = "=2.20.0"
cairo-lang-filesystem = "=2.20.0"
cairo-vm = "=3.2.0"
clap = { version = "=4.6.7", features = ["derive"] }
serde = { version = "=1.0.229", features = ["derive"] }
serde_json = "=1.0.151"
