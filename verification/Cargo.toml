[package]
name = "blsforme"
version = "0.1.0"
edition = "2021"
publish = false

[dependencies]
clap = { version = "*", features = ["derive"] }
fs-err = "*"
glob = "*"
gpt = "*"
nix = { version = "*", features = ["fs", "mount"] }
serde_json = "*"
