[package]
name = "minilisp"
version = "0.1.0"
edition = "2021"

[dependencies]
clap = { version = "=4.6.7", features = ["derive"] }
rustc_apfloat = "=0.2.3"
