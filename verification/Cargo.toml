[package]
name = "rmusic"
version = "0.1.0"
edition = "2021"
publish = false

[dependencies]
rand = "0.8"
opusic-c = "*"
symphonia = "*"
rubato = "*"
cpal = "*"
clap = { version = "4", features = ["derive"] }
anyhow = "*"
log = "*"
simplelog = "*"
atomic_float = "*"
