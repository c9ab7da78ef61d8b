[package]
name = "bspwm_status"
version = "0.1.0"
edition = "2021"
publish = false

[dependencies]
nix = { version = "*", features = ["signal"] }
simple-signal = "*"
structopt = "*"
