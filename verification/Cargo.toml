[package]
name = "memstress"
version = "0.1.0"
edition = "2021"
publish = false

[dependencies]
anyhow = "1"
byte-unit = "4"
clap = { version = "4", features = ["derive"] }
ctrlc = "3"
libc = "0.2"
nix = "0.26"
rand = "0.8"
