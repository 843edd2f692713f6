[package]
name = "tailscale2"
version = "0.1.0"
edition = "2021"
publish = false

[dependencies]
libc = "*"
nix = { version = "*", features = ["fs"] }
tokio = { version = "*", features = ["rt", "rt-multi-thread", "net", "io-util", "macros"] }
