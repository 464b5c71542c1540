[package]
name = "knot_control"
version = "0.1.0"
edition = "2021"
publish = false

[dependencies]
prometheus = { version = "0.13", default-features = false }
thiserror = "1"
argh = "0.1"
tide = { version = "0.16", default-features = false, features = ["h1-server"] }
async-std = { version = "1", features = ["attributes"] }
