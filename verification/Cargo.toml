[package]
name = "witch"
version = "0.1.1"
edition = "2021"
publish = false

[dependencies]
clap = { version = "4", features = ["derive"] }
dialoguer = "0.11"
libc = "0.2"
strsim = "0.11"
